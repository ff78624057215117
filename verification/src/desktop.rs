//! Desktop entries (`*.desktop`) and `mimeapps.list`.
//!
//! Finding files on disk is left to the caller: the functions here take the
//! text that was read and decide what it means.
use crate::fspath::{join_path, path_join};
use crate::order::{sort_by_keys, sorted_by_keys};
use crate::text::{
    char_key, chars_of, concat, eq_ignore_ascii_case, eq_ignore_case, has_suffix, join, lines,
    lines_of, split_all, split_once, split_once_char, str_eq, string_of_range, strip_suffix,
    to_lowercase, trim, trim_end_str, trim_str, unicode_lowercase,
};
use vstd::prelude::*;

verus! {

/// An application as a desktop entry describes it.
#[derive(Clone, Debug)]
pub struct DesktopApp {
    pub id: String,
    pub name: String,
    pub comment: String,
    pub icon: String,
    pub command: String,
    pub no_display: bool,
}

/// The abstract value of a [`DesktopApp`].
pub struct AppSpec {
    pub id: Seq<char>,
    pub name: Seq<char>,
    pub comment: Seq<char>,
    pub icon: Seq<char>,
    pub command: Seq<char>,
    pub no_display: bool,
}

impl View for DesktopApp {
    type V = AppSpec;

    open spec fn view(&self) -> AppSpec {
        AppSpec {
            id: self.id@,
            name: self.name@,
            comment: self.comment@,
            icon: self.icon@,
            command: self.command@,
            no_display: self.no_display,
        }
    }
}

impl DesktopApp {
    pub fn clone_app(&self) -> (r: DesktopApp)
        ensures
            r@ == self@,
    {
        DesktopApp {
            id: self.id.clone(),
            name: self.name.clone(),
            comment: self.comment.clone(),
            icon: self.icon.clone(),
            command: self.command.clone(),
            no_display: self.no_display,
        }
    }
}

pub open spec fn desktop_suffix() -> Seq<char> {
    seq!['.', 'd', 'e', 's', 'k', 't', 'o', 'p']
}

/// The id xdg-desktop-portal expects: every trailing `".desktop"` removed
/// (the frontend appends the suffix itself).
pub open spec fn app_id_of(id: Seq<char>) -> Seq<char> {
    trim_end_str(id, desktop_suffix())
}

/// The file name of a desktop entry: the id with `".desktop"` added unless it
/// already ends with it.
pub open spec fn desktop_file_of(id: Seq<char>) -> Seq<char> {
    if has_suffix(id, desktop_suffix()) {
        id
    } else {
        id + desktop_suffix()
    }
}

proof fn lemma_desktop_lit()
    ensures
        ".desktop"@ == desktop_suffix(),
{
    reveal_strlit(".desktop");
    assert(".desktop"@ =~= desktop_suffix());
}

/// Strips every trailing `".desktop"` from `id`.
pub fn portal_app_id(id: &str) -> (out: String)
    ensures
        out@ == app_id_of(id@),
        !has_suffix(out@, desktop_suffix()),
{
    proof {
        lemma_desktop_lit();
    }
    let mut cur = id.to_owned();
    loop
        invariant
            app_id_of(cur@) == app_id_of(id@),
            ".desktop"@ == desktop_suffix(),
        decreases cur@.len(),
    {
        match strip_suffix(cur.as_str(), ".desktop") {
            Some(next) => {
                proof {
                    assert(next@ == cur@.subrange(0, cur@.len() - desktop_suffix().len()));
                }
                cur = next;
            },
            None => {
                return cur;
            },
        }
    }
}

/// Stripping the suffix twice changes nothing more than stripping it once.
pub proof fn law_portal_app_id_idempotent(id: Seq<char>)
    ensures
        app_id_of(app_id_of(id)) == app_id_of(id),
        !has_suffix(app_id_of(id), desktop_suffix()),
    decreases id.len(),
{
    if has_suffix(id, desktop_suffix()) {
        law_portal_app_id_idempotent(id.subrange(0, id.len() - desktop_suffix().len()));
    }
}

/// The file name under which the entry for `id` is looked up.
pub fn desktop_file_name(id: &str) -> (out: String)
    ensures
        out@ == desktop_file_of(id@),
{
    proof {
        lemma_desktop_lit();
    }
    if crate::text::ends_with(id, ".desktop") {
        id.to_owned()
    } else {
        concat(id, ".desktop")
    }
}

// ---------------------------------------------------------------------------
// Parsing a desktop entry
// ---------------------------------------------------------------------------
/// What a scan of a desktop entry has collected so far.
pub struct EntryScan {
    pub in_entry: bool,
    pub name: Seq<char>,
    pub comment: Seq<char>,
    pub icon: Seq<char>,
    pub exec_line: Seq<char>,
    pub no_display: bool,
    pub hidden: bool,
    pub typ: Seq<char>,
}

pub open spec fn scan_start() -> EntryScan {
    EntryScan {
        in_entry: false,
        name: Seq::empty(),
        comment: Seq::empty(),
        icon: Seq::empty(),
        exec_line: Seq::empty(),
        no_display: false,
        hidden: false,
        typ: Seq::empty(),
    }
}

/// One line of a desktop file: comments and blank lines are skipped, a group
/// header switches `[Desktop Entry]` on or off, and inside that group the
/// known keys take the text after the first `'='`.
pub open spec fn scan_line(st: EntryScan, raw: Seq<char>) -> EntryScan {
    let line = trim(raw);
    if line.len() == 0 || line[0] == '#' {
        st
    } else if line[0] == '[' {
        EntryScan { in_entry: line == "[Desktop Entry]"@, ..st }
    } else if !st.in_entry {
        st
    } else {
        match split_once(line, '=') {
            None => st,
            Some((key, value)) => if key == "Type"@ {
                EntryScan { typ: value, ..st }
            } else if key == "Name"@ {
                EntryScan { name: value, ..st }
            } else if key == "Comment"@ {
                EntryScan { comment: value, ..st }
            } else if key == "Icon"@ {
                EntryScan { icon: value, ..st }
            } else if key == "Exec"@ {
                EntryScan { exec_line: value, ..st }
            } else if key == "NoDisplay"@ {
                EntryScan { no_display: eq_ignore_case(value, "true"@), ..st }
            } else if key == "Hidden"@ {
                EntryScan { hidden: eq_ignore_case(value, "true"@), ..st }
            } else {
                st
            },
        }
    }
}

pub open spec fn scan_lines(ls: Seq<Seq<char>>) -> EntryScan
    decreases ls.len(),
{
    if ls.len() == 0 {
        scan_start()
    } else {
        scan_line(scan_lines(ls.drop_last()), ls.last())
    }
}

/// The application a desktop file describes: none when it is hidden or of a
/// type other than `Application`; a missing name falls back to the id.
pub open spec fn desktop_entry(text: Seq<char>, id: Seq<char>) -> Option<AppSpec> {
    let st = scan_lines(lines(text));
    if st.hidden || (st.typ.len() > 0 && st.typ != "Application"@) {
        None
    } else {
        Some(
            AppSpec {
                id: app_id_of(id),
                name: if st.name.len() == 0 {
                    app_id_of(id)
                } else {
                    st.name
                },
                comment: st.comment,
                icon: st.icon,
                command: st.exec_line,
                no_display: st.no_display,
            },
        )
    }
}

/// A line that opens a group: `[` first once white space is trimmed.
pub open spec fn group_header(l: Seq<char>) -> bool {
    trim(l).len() > 0 && trim(l)[0] == '['
}

proof fn lemma_scan_other_group(a: Seq<Seq<char>>, b: Seq<Seq<char>>, k: int)
    requires
        1 <= k <= b.len(),
        group_header(b[0]),
        trim(b[0]) != "[Desktop Entry]"@,
        forall|j: int| 1 <= j < b.len() ==> !group_header(#[trigger] b[j]),
    ensures
        scan_lines(a + b.take(k)) == (EntryScan { in_entry: false, ..scan_lines(a) }),
    decreases k,
{
    let ab = a + b.take(k);
    assert(ab.drop_last() =~= a + b.take(k - 1));
    assert(ab.last() == b[k - 1]);
    if k == 1 {
        assert(a + b.take(0) =~= a);
    } else {
        lemma_scan_other_group(a, b, k - 1);
        assert(!group_header(b[k - 1]));
    }
}

/// Only the `[Desktop Entry]` group is read: appending, after a text whose
/// last line is complete, a group with any other header (whose further
/// lines open no group) leaves the application read from it unchanged.
pub proof fn law_other_groups_ignored(t: Seq<char>, g: Seq<char>, id: Seq<char>)
    requires
        t.len() == 0 || t.last() == '\n',
        lines(g).len() > 0,
        group_header(lines(g)[0]),
        trim(lines(g)[0]) != "[Desktop Entry]"@,
        forall|j: int| 1 <= j < lines(g).len() ==> !group_header(#[trigger] lines(g)[j]),
    ensures
        desktop_entry(t + g, id) == desktop_entry(t, id),
{
    lemma_lines_concat(t, g);
    lemma_scan_other_group(lines(t), lines(g), lines(g).len() as int);
    assert(lines(g).take(lines(g).len() as int) =~= lines(g));
}

proof fn lemma_scan_stays_in_entry(b: Seq<Seq<char>>, k: int)
    requires
        1 <= k <= b.len(),
        trim(b[0]) == "[Desktop Entry]"@,
        forall|j: int| 1 <= j < b.len() ==> !group_header(#[trigger] b[j]),
    ensures
        scan_lines(b.take(k)).in_entry,
    decreases k,
{
    let bk = b.take(k);
    assert(bk.drop_last() =~= b.take(k - 1));
    assert(bk.last() == b[k - 1]);
    if k == 1 {
        assert(b.take(0) =~= Seq::<Seq<char>>::empty());
        reveal_strlit("[Desktop Entry]");
    } else {
        lemma_scan_stays_in_entry(b, k - 1);
        assert(!group_header(b[k - 1]));
    }
}

/// A key line `key=v` of the entry group.
pub open spec fn key_line(key: Seq<char>, v: Seq<char>) -> Seq<char> {
    key + seq!['='] + v
}

/// Inside the `[Desktop Entry]` group, a further `Name=`, `Comment=`,
/// `Icon=` or `Exec=` line sets the application's name, comment, icon or
/// command to the text after `=` and changes nothing else (an empty name
/// falls back to the id, so the name is set by a non-empty value);
/// `NoDisplay=` sets whether it is hidden from lists (`true` in any ASCII
/// case); `Hidden=true` or a `Type=` other than `Application` drops the
/// entry, and `Type=Application` keeps it as it was. Here
/// `t` is a text whose first line is the `[Desktop Entry]` header and whose
/// other lines open no group.
pub proof fn law_entry_key_sets_field(t: Seq<char>, key: Seq<char>, v: Seq<char>, id: Seq<char>)
    requires
        t.last() == '\n',
        lines(t).len() > 0,
        trim(lines(t)[0]) == "[Desktop Entry]"@,
        forall|j: int| 1 <= j < lines(t).len() ==> !group_header(#[trigger] lines(t)[j]),
        key == "Name"@ || key == "Comment"@ || key == "Icon"@ || key == "Exec"@ || key == "NoDisplay"@ || key
            == "Hidden"@ || key == "Type"@,
        forall|j: int| 0 <= j < v.len() ==> #[trigger] v[j] != '\n',
        v.len() > 0 ==> !crate::text::is_ws(v.last()),
    ensures
        ({
            let after = desktop_entry(t + key_line(key, v) + seq!['\n'], id);
            &&& desktop_entry(t, id) is None && key != "Hidden"@ && key != "Type"@ ==> after is None
            &&& desktop_entry(t, id) matches Some(a) ==> {
                &&& key == "Name"@ && v.len() > 0 ==> after == Some(AppSpec { name: v, ..a })
                &&& key == "Comment"@ ==> after == Some(AppSpec { comment: v, ..a })
                &&& key == "Icon"@ ==> after == Some(AppSpec { icon: v, ..a })
                &&& key == "Exec"@ ==> after == Some(AppSpec { command: v, ..a })
                &&& key == "NoDisplay"@ ==> after == Some(
                    AppSpec { no_display: crate::text::eq_ignore_case(v, "true"@), ..a },
                )
                &&& key == "Type"@ && v == "Application"@ ==> after == Some(a)
            }
            &&& key == "Hidden"@ && crate::text::eq_ignore_case(v, "true"@) ==> after is None
            &&& key == "Type"@ && v.len() > 0 && v != "Application"@ ==> after is None
        }),
{
    reveal_strlit("Name");
    reveal_strlit("Comment");
    reveal_strlit("Icon");
    reveal_strlit("Exec");
    reveal_strlit("Type");
    reveal_strlit("NoDisplay");
    reveal_strlit("Hidden");
    let line = key_line(key, v);
    assert(line.len() > 0 ==> line[0] == key[0]);
    assert(forall|j: int| 0 <= j < key.len() ==> #[trigger] key[j] != '=' && key[j] != '\n');
    assert forall|j: int| 0 <= j < line.len() implies #[trigger] line[j] != '\n' by {
        if j < key.len() {
            assert(line[j] == key[j]);
        } else if j > key.len() {
            assert(line[j] == v[j - key.len() - 1]);
        }
    }
    assert(line.last() != '\r') by {
        if v.len() > 0 {
            assert(line.last() == v.last());
        }
    }
    lemma_one_line(line);
    lemma_lines_concat(t, line + seq!['\n']);
    assert(t + line + seq!['\n'] =~= t + (line + seq!['\n']));
    let lt = lines(t);
    let l2 = lines(t + line + seq!['\n']);
    assert(l2 == lt.push(line));
    lemma_scan_stays_in_entry(lt, lt.len() as int);
    assert(lt.take(lt.len() as int) =~= lt);
    assert(l2.drop_last() =~= lt);
    lemma_trim_same(line);
    assert(!group_header(line)) by {
        assert(line[0] == key[0]);
    }
    lemma_first_index_is(line, '=', key.len() as int);
    assert(line.subrange(0, key.len() as int) =~= key);
    assert(line.subrange(key.len() + 1int, line.len() as int) =~= v);
}

/// The mutable counterpart of [`EntryScan`].
struct Scan {
    in_entry: bool,
    name: String,
    comment: String,
    icon: String,
    exec_line: String,
    no_display: bool,
    hidden: bool,
    typ: String,
}

impl Scan {
    spec fn spec_of(&self) -> EntryScan {
        EntryScan {
            in_entry: self.in_entry,
            name: self.name@,
            comment: self.comment@,
            icon: self.icon@,
            exec_line: self.exec_line@,
            no_display: self.no_display,
            hidden: self.hidden,
            typ: self.typ@,
        }
    }
}

fn scan_one(st: &mut Scan, raw: &str)
    ensures
        final(st).spec_of() == scan_line(old(st).spec_of(), raw@),
{
    proof {
        reveal_strlit("[Desktop Entry]");
        reveal_strlit("Type");
        reveal_strlit("Name");
        reveal_strlit("Comment");
        reveal_strlit("Icon");
        reveal_strlit("Exec");
        reveal_strlit("NoDisplay");
        reveal_strlit("Hidden");
        reveal_strlit("true");
    }
    let line = trim_str(raw);
    let lv = chars_of(line.as_str());
    if lv.len() == 0 || lv[0] == '#' {
        return ;
    }
    if lv[0] == '[' {
        st.in_entry = str_eq(line.as_str(), "[Desktop Entry]");
        return ;
    }
    if !st.in_entry {
        return ;
    }
    match split_once_char(line.as_str(), '=') {
        None => {},
        Some((key, value)) => {
            if str_eq(key.as_str(), "Type") {
                st.typ = value;
            } else if str_eq(key.as_str(), "Name") {
                st.name = value;
            } else if str_eq(key.as_str(), "Comment") {
                st.comment = value;
            } else if str_eq(key.as_str(), "Icon") {
                st.icon = value;
            } else if str_eq(key.as_str(), "Exec") {
                st.exec_line = value;
            } else if str_eq(key.as_str(), "NoDisplay") {
                st.no_display = eq_ignore_ascii_case(value.as_str(), "true");
            } else if str_eq(key.as_str(), "Hidden") {
                st.hidden = eq_ignore_ascii_case(value.as_str(), "true");
            }
        },
    }
}

/// Reads the `[Desktop Entry]` group of a desktop file.
pub fn parse_desktop(text: &str, id: &str) -> (out: Option<DesktopApp>)
    ensures
        match desktop_entry(text@, id@) {
            Some(a) => out matches Some(app) && app@ == a,
            None => out is None,
        },
{
    let ls = lines_of(text);
    let ghost lv = ls@.map_values(|l: String| l@);
    let mut st = Scan {
        in_entry: false,
        name: String::new(),
        comment: String::new(),
        icon: String::new(),
        exec_line: String::new(),
        no_display: false,
        hidden: false,
        typ: String::new(),
    };
    let mut i: usize = 0;
    proof {
        assert(lv.take(0) =~= Seq::<Seq<char>>::empty());
        assert(st.spec_of() =~= scan_start());
    }
    while i < ls.len()
        invariant
            i <= ls.len(),
            lv == ls@.map_values(|l: String| l@),
            lv == lines(text@),
            st.spec_of() == scan_lines(lv.take(i as int)),
        decreases ls.len() - i,
    {
        proof {
            assert(lv.take(i + 1).drop_last() =~= lv.take(i as int));
            assert(lv.take(i + 1).last() == ls@[i as int]@);
        }
        scan_one(&mut st, ls[i].as_str());
        i += 1;
    }
    proof {
        assert(lv.take(ls.len() as int) =~= lv);
        reveal_strlit("Application");
    }
    if st.hidden || (!st.typ.as_str().is_empty() && !str_eq(st.typ.as_str(), "Application")) {
        return None;
    }
    let pid = portal_app_id(id);
    let name = if st.name.as_str().is_empty() {
        pid.clone()
    } else {
        st.name
    };
    Some(DesktopApp { id: pid, name, comment: st.comment, icon: st.icon, command: st.exec_line, no_display: st.no_display })
}

/// The entry for `id`, given the text of the first `<id>.desktop` file found
/// in the application directories (`None` when there is none).
pub fn load_app(id: &str, found: Option<&str>) -> (out: Option<DesktopApp>)
    ensures
        match found {
            None => out is None,
            Some(text) => match desktop_entry(text@, id@) {
                Some(a) => out matches Some(app) && app@ == a,
                None => out is None,
            },
        },
{
    match found {
        None => None,
        Some(text) => parse_desktop(text, id),
    }
}

} // verus!

verus! {

// ---------------------------------------------------------------------------
// Icons
// ---------------------------------------------------------------------------
/// `base` without the suffix, when it ends with it and something is left.
pub open spec fn stripped_candidate(base: Seq<char>, suffix: Seq<char>) -> Seq<Seq<char>> {
    if has_suffix(base, suffix) && base.len() > suffix.len() {
        seq![base.subrange(0, base.len() - suffix.len())]
    } else {
        Seq::empty()
    }
}

/// Icon names to try for an app id, in order: the id itself, the id without
/// a URL-handler suffix, and the icons of well-known browser aliases.
pub open spec fn icon_candidates(id: Seq<char>) -> Seq<Seq<char>> {
    let base = app_id_of(id);
    seq![base] + stripped_candidate(base, "-url-handler"@) + stripped_candidate(base, "-handler"@)
        + stripped_candidate(base, "_url_handler"@) + (if base == "com.google.Chrome"@ {
        seq!["google-chrome"@]
    } else {
        Seq::empty()
    }) + (if base == "chromium-browser"@ || base == "Chromium"@ {
        seq!["chromium"@, "google-chrome"@]
    } else {
        Seq::empty()
    })
}

fn push_stripped(out: &mut Vec<String>, base: &str, suffix: &str)
    ensures
        final(out)@.map_values(|s: String| s@) == old(out)@.map_values(|s: String| s@)
            + stripped_candidate(base@, suffix@),
{
    let ghost before = out@.map_values(|s: String| s@);
    match strip_suffix(base, suffix) {
        Some(s) => {
            if !s.as_str().is_empty() {
                out.push(s);
                proof {
                    assert(out@.map_values(|s: String| s@) =~= before + stripped_candidate(
                        base@,
                        suffix@,
                    ));
                }
            } else {
                proof {
                    assert(before + stripped_candidate(base@, suffix@) =~= before);
                }
            }
        },
        None => {
            proof {
                assert(before + stripped_candidate(base@, suffix@) =~= before);
            }
        },
    }
}

fn push_lit(out: &mut Vec<String>, s: &str)
    ensures
        final(out)@.map_values(|x: String| x@) == old(out)@.map_values(|x: String| x@).push(s@),
{
    let ghost before = out@.map_values(|x: String| x@);
    out.push(s.to_owned());
    proof {
        assert(out@.map_values(|x: String| x@) =~= before.push(s@));
    }
}

/// The icon names tried for `id`.
pub fn icon_name_candidates(id: &str) -> (out: Vec<String>)
    ensures
        out@.map_values(|s: String| s@) == icon_candidates(id@),
{
    let base = portal_app_id(id);
    let mut out: Vec<String> = Vec::new();
    push_lit(&mut out, base.as_str());
    push_stripped(&mut out, base.as_str(), "-url-handler");
    push_stripped(&mut out, base.as_str(), "-handler");
    push_stripped(&mut out, base.as_str(), "_url_handler");
    let ghost mid = out@.map_values(|s: String| s@);
    if str_eq(base.as_str(), "com.google.Chrome") {
        push_lit(&mut out, "google-chrome");
    }
    let ghost mid2 = out@.map_values(|s: String| s@);
    if str_eq(base.as_str(), "chromium-browser") || str_eq(base.as_str(), "Chromium") {
        push_lit(&mut out, "chromium");
        push_lit(&mut out, "google-chrome");
    }
    proof {
        let b = base@;
        let c1 = if b == "com.google.Chrome"@ {
            seq!["google-chrome"@]
        } else {
            Seq::<Seq<char>>::empty()
        };
        let c2 = if b == "chromium-browser"@ || b == "Chromium"@ {
            seq!["chromium"@, "google-chrome"@]
        } else {
            Seq::<Seq<char>>::empty()
        };
        assert(mid2 =~= mid + c1);
        assert(out@.map_values(|s: String| s@) =~= mid2 + c2);
        assert(seq![b] =~= Seq::<Seq<char>>::empty().push(b));
    }
    out
}

/// The icon of the first candidate (other than the app's own id) whose
/// desktop entry was found and names an icon.
pub open spec fn inherited_icon(
    cands: Seq<Seq<char>>,
    own: Seq<char>,
    loaded: Seq<Option<DesktopApp>>,
) -> Option<Seq<char>>
    decreases cands.len(),
{
    if cands.len() == 0 || loaded.len() == 0 {
        None
    } else if cands[0] != own && (loaded[0] matches Some(a) && a.icon@.len() > 0) {
        Some(loaded[0]->0.icon@)
    } else {
        inherited_icon(cands.drop_first(), own, loaded.drop_first())
    }
}

/// The icon name an alias entry supplies for `id`. `loaded[k]` is the entry
/// found for the `k`-th icon candidate, if any.
pub fn inherit_icon_name(id: &str, loaded: &Vec<Option<DesktopApp>>) -> (out: Option<String>)
    requires
        loaded.len() == icon_candidates(id@).len(),
    ensures
        match inherited_icon(icon_candidates(id@), app_id_of(id@), loaded@) {
            Some(i) => out matches Some(s) && s@ == i,
            None => out is None,
        },
{
    let cands = icon_name_candidates(id);
    let own = portal_app_id(id);
    let ghost cv = cands@.map_values(|s: String| s@);
    let mut k: usize = 0;
    proof {
        assert(cv.subrange(0, cv.len() as int) =~= cv);
        assert(loaded@.subrange(0, loaded@.len() as int) =~= loaded@);
    }
    while k < cands.len()
        invariant
            k <= cands.len() == loaded.len(),
            cv == cands@.map_values(|s: String| s@),
            cv == icon_candidates(id@),
            own@ == app_id_of(id@),
            inherited_icon(cv, own@, loaded@) == inherited_icon(
                cv.subrange(k as int, cv.len() as int),
                own@,
                loaded@.subrange(k as int, loaded@.len() as int),
            ),
        decreases cands.len() - k,
    {
        let ghost cs = cv.subrange(k as int, cv.len() as int);
        let ghost ls = loaded@.subrange(k as int, loaded@.len() as int);
        proof {
            assert(cs[0] == cands@[k as int]@);
            assert(ls[0] == loaded@[k as int]);
            assert(cs.drop_first() =~= cv.subrange(k + 1, cv.len() as int));
            assert(ls.drop_first() =~= loaded@.subrange(k + 1, loaded@.len() as int));
        }
        if !str_eq(cands[k].as_str(), own.as_str()) {
            match &loaded[k] {
                Some(a) => {
                    if !a.icon.as_str().is_empty() {
                        return Some(a.icon.clone());
                    }
                },
                None => {},
            }
        }
        k += 1;
    }
    proof {
        assert(cv.subrange(k as int, cv.len() as int).len() == 0);
    }
    None
}

/// The first candidate for which an icon file was found.
pub open spec fn first_resolvable(cands: Seq<Seq<char>>, found: Seq<bool>) -> Option<Seq<char>>
    decreases cands.len(),
{
    if cands.len() == 0 || found.len() == 0 {
        None
    } else if found[0] {
        Some(cands[0])
    } else {
        first_resolvable(cands.drop_first(), found.drop_first())
    }
}

/// The icon name an app ends up with before it is resolved to a file: its
/// own, else an inherited one, else the first candidate with an icon file.
pub open spec fn chosen_icon(
    icon: Seq<char>,
    inherited: Option<Seq<char>>,
    cands: Seq<Seq<char>>,
    found: Seq<bool>,
) -> Seq<char> {
    if icon.len() > 0 {
        icon
    } else {
        match inherited {
            Some(n) => n,
            None => match first_resolvable(cands, found) {
                Some(c) => c,
                None => icon,
            },
        }
    }
}

/// Fills in a missing icon name. `inherited` is what [`inherit_icon_name`]
/// gave; `found[k]` says whether an icon file exists for the `k`-th icon
/// candidate. The caller then replaces the name by the icon file's path when
/// one resolves.
pub fn enrich_icon(app: &mut DesktopApp, inherited: Option<String>, found: &Vec<bool>)
    requires
        found.len() == icon_candidates(old(app).id@).len(),
    ensures
        final(app).icon@ == chosen_icon(
            old(app).icon@,
            match inherited {
                Some(s) => Some(s@),
                None => None,
            },
            icon_candidates(old(app).id@),
            found@,
        ),
        final(app)@.id == old(app)@.id,
        final(app)@.name == old(app)@.name,
        final(app)@.comment == old(app)@.comment,
        final(app)@.command == old(app)@.command,
        final(app)@.no_display == old(app)@.no_display,
{
    if !app.icon.as_str().is_empty() {
        return ;
    }
    match inherited {
        Some(name) => {
            app.icon = name;
        },
        None => {
            let cands = icon_name_candidates(app.id.as_str());
            let ghost cv = cands@.map_values(|s: String| s@);
            let mut k: usize = 0;
            proof {
                assert(cv.subrange(0, cv.len() as int) =~= cv);
                assert(found@.subrange(0, found@.len() as int) =~= found@);
            }
            while k < cands.len()
                invariant
                    k <= cands.len() == found.len(),
                    cv == cands@.map_values(|s: String| s@),
                    cv == icon_candidates(old(app).id@),
                    app@.id == old(app)@.id,
                    app@.name == old(app)@.name,
                    app@.comment == old(app)@.comment,
                    app@.command == old(app)@.command,
                    app@.no_display == old(app)@.no_display,
                    old(app).icon@.len() == 0,
                    inherited is None,
                    app.icon@.len() == 0,
                    first_resolvable(cv, found@) == first_resolvable(
                        cv.subrange(k as int, cv.len() as int),
                        found@.subrange(k as int, found@.len() as int),
                    ),
                decreases cands.len() - k,
            {
                let ghost cs = cv.subrange(k as int, cv.len() as int);
                let ghost fs = found@.subrange(k as int, found@.len() as int);
                proof {
                    assert(cs[0] == cands@[k as int]@);
                    assert(fs[0] == found@[k as int]);
                    assert(cs.drop_first() =~= cv.subrange(k + 1, cv.len() as int));
                    assert(fs.drop_first() =~= found@.subrange(k + 1, found@.len() as int));
                }
                if found[k] {
                    app.icon = cands[k].clone();
                    return ;
                }
                k += 1;
            }
        },
    }
}

/// The name under which an icon is searched in icon themes, or `None` when
/// the value cannot name a themed or local icon (empty, or a URL). An
/// absolute path is checked by the caller before this name is used.
pub open spec fn icon_lookup_spec(icon: Seq<char>) -> Option<Seq<char>> {
    let t = trim(icon);
    if t.len() == 0 || crate::text::find(t, "://"@) is Some {
        None
    } else {
        Some(trim_end_str(trim_end_str(trim_end_str(t, ".png"@), ".svg"@), ".xpm"@))
    }
}

fn trim_end_all(s: &str, suffix: &str) -> (out: String)
    requires
        suffix@.len() > 0,
    ensures
        out@ == trim_end_str(s@, suffix@),
{
    let mut cur = s.to_owned();
    loop
        invariant
            trim_end_str(cur@, suffix@) == trim_end_str(s@, suffix@),
            suffix@.len() > 0,
        decreases cur@.len(),
    {
        match strip_suffix(cur.as_str(), suffix) {
            Some(next) => {
                cur = next;
            },
            None => {
                return cur;
            },
        }
    }
}

/// Whether `p` occurs in `s`.
pub fn contains_str(s: &str, p: &str) -> (b: bool)
    ensures
        b == (crate::text::find(s@, p@) is Some),
{
    let v = chars_of(s);
    let pv = chars_of(p);
    let mut i: usize = 0;
    loop
        invariant
            i <= v.len(),
            v@ == s@,
            pv@ == p@,
            crate::text::find(s@, p@) == crate::text::find_from(s@, p@, i as int),
        decreases v.len() - i,
    {
        if pv.len() > v.len() - i {
            return false;
        }
        if crate::text::matches_at(&v, i, &pv) {
            return true;
        }
        proof {
            if pv.len() == 0 {
                assert(v@.subrange(i as int, i as int) =~= pv@);
            }
        }
        i += 1;
    }
}

/// The theme icon name derived from an `Icon=` value.
pub fn icon_lookup_name(icon: &str) -> (out: Option<String>)
    ensures
        match icon_lookup_spec(icon@) {
            Some(n) => out matches Some(s) && s@ == n,
            None => out is None,
        },
{
    proof {
        reveal_strlit("://");
        reveal_strlit(".png");
        reveal_strlit(".svg");
        reveal_strlit(".xpm");
    }
    let t = trim_str(icon);
    if t.as_str().is_empty() || contains_str(t.as_str(), "://") {
        return None;
    }
    let a = trim_end_all(t.as_str(), ".png");
    let b = trim_end_all(a.as_str(), ".svg");
    Some(trim_end_all(b.as_str(), ".xpm"))
}

// ---------------------------------------------------------------------------
// Icon files
// ---------------------------------------------------------------------------
pub open spec fn texts_of(v: Seq<String>) -> Seq<Seq<char>> {
    v.map_values(|s: String| s@)
}

/// The icon themes searched first, in order.
pub open spec fn icon_themes() -> Seq<Seq<char>> {
    seq!["hicolor"@, "Papirus"@, "Papirus-Dark"@, "breeze-dark"@, "breeze"@, "Adwaita"@]
}

/// The icon sizes searched in those themes, largest first.
pub open spec fn icon_sizes() -> Seq<Seq<char>> {
    seq![
        "scalable"@,
        "512x512"@,
        "256x256"@,
        "128x128"@,
        "64x64"@,
        "48x48"@,
        "32x32"@,
        "24x24"@,
        "16x16"@,
    ]
}

/// The sizes searched in any other theme.
pub open spec fn shallow_sizes() -> Seq<Seq<char>> {
    seq!["scalable"@, "128x128"@, "64x64"@, "48x48"@]
}

/// `dir/name.ext`.
pub open spec fn icon_file(dir: Seq<char>, name: Seq<char>, ext: Seq<char>) -> Seq<char> {
    join_path(dir, name + "."@ + ext)
}

/// The files tried in one size directory of a known theme: `apps` then
/// `devices`, as SVG and then as PNG.
pub open spec fn size_dir_files(dir: Seq<char>, name: Seq<char>) -> Seq<Seq<char>> {
    seq![
        icon_file(join_path(dir, "apps"@), name, "svg"@),
        icon_file(join_path(dir, "devices"@), name, "svg"@),
        icon_file(join_path(dir, "apps"@), name, "png"@),
        icon_file(join_path(dir, "devices"@), name, "png"@),
    ]
}

/// The files tried in each of `sizes` under `theme_dir`, in order.
pub open spec fn sizes_files(theme_dir: Seq<char>, name: Seq<char>, sizes: Seq<Seq<char>>) -> Seq<Seq<char>>
    decreases sizes.len(),
{
    if sizes.len() == 0 {
        Seq::empty()
    } else {
        sizes_files(theme_dir, name, sizes.drop_last()) + size_dir_files(join_path(theme_dir, sizes.last()), name)
    }
}

/// The files tried in each of `themes` under an icon root, in order.
pub open spec fn themes_files(root: Seq<char>, name: Seq<char>, themes: Seq<Seq<char>>) -> Seq<Seq<char>>
    decreases themes.len(),
{
    if themes.len() == 0 {
        Seq::empty()
    } else {
        themes_files(root, name, themes.drop_last()) + sizes_files(join_path(root, themes.last()), name, icon_sizes())
    }
}

/// The files tried in each of `sizes` of any other theme directory:
/// `apps`, as SVG and then as PNG.
pub open spec fn shallow_files(theme_dir: Seq<char>, name: Seq<char>, sizes: Seq<Seq<char>>) -> Seq<Seq<char>>
    decreases sizes.len(),
{
    if sizes.len() == 0 {
        Seq::empty()
    } else {
        let apps = join_path(join_path(theme_dir, sizes.last()), "apps"@);
        shallow_files(theme_dir, name, sizes.drop_last()) + seq![icon_file(apps, name, "svg"@), icon_file(apps, name, "png"@)]
    }
}

/// The files tried in each of the theme directories `dirs`, in order.
pub open spec fn dirs_files(dirs: Seq<Seq<char>>, name: Seq<char>) -> Seq<Seq<char>>
    decreases dirs.len(),
{
    if dirs.len() == 0 {
        Seq::empty()
    } else {
        dirs_files(dirs.drop_last(), name) + shallow_files(dirs.last(), name, shallow_sizes())
    }
}

/// The files tried under each icon root: the known themes, then the
/// theme directories found under that root.
pub open spec fn roots_files(roots: Seq<Seq<char>>, theme_dirs: Seq<Seq<Seq<char>>>, name: Seq<char>) -> Seq<Seq<char>>
    decreases roots.len(),
{
    if roots.len() == 0 || theme_dirs.len() == 0 {
        Seq::empty()
    } else {
        roots_files(roots.drop_last(), theme_dirs.drop_last(), name) + themes_files(roots.last(), name, icon_themes())
            + dirs_files(theme_dirs.last(), name)
    }
}

/// The pixmap files tried: the system's, then the user's, as SVG, PNG and
/// XPM.
pub open spec fn pixmap_files(data_home: Seq<char>, name: Seq<char>) -> Seq<Seq<char>> {
    let local = join_path(data_home, "pixmaps"@);
    seq![
        icon_file("/usr/share/pixmaps"@, name, "svg"@),
        icon_file(local, name, "svg"@),
        icon_file("/usr/share/pixmaps"@, name, "png"@),
        icon_file(local, name, "png"@),
        icon_file("/usr/share/pixmaps"@, name, "xpm"@),
        icon_file(local, name, "xpm"@),
    ]
}

/// The files an `Icon=` value may resolve to, in the order they are tried:
/// none for a blank value or a URL; else the value itself when it is an
/// absolute path, then the pixmaps, then each icon root (`theme_dirs[r]`
/// lists the theme directories under `roots[r]`).
pub open spec fn icon_candidates_spec(
    icon: Seq<char>,
    data_home: Seq<char>,
    roots: Seq<Seq<char>>,
    theme_dirs: Seq<Seq<Seq<char>>>,
) -> Seq<Seq<char>> {
    match icon_lookup_spec(icon) {
        None => Seq::empty(),
        Some(name) => (if crate::fspath::is_abs(trim(icon)) {
            seq![trim(icon)]
        } else {
            Seq::empty()
        }) + pixmap_files(data_home, name) + roots_files(roots, theme_dirs, name),
    }
}

fn push_all(out: &mut Vec<String>, v: Vec<String>)
    ensures
        texts_of(final(out)@) == texts_of(old(out)@) + texts_of(v@),
{
    let mut i: usize = 0;
    while i < v.len()
        invariant
            i <= v.len(),
            texts_of(out@) == texts_of(old(out)@) + texts_of(v@).take(i as int),
        decreases v.len() - i,
    {
        let ghost before = out@;
        let c = v[i].clone();
        assert(c@ == v@[i as int]@);
        out.push(c);
        proof {
            assert(out@ == before.push(c));
            assert(texts_of(out@) =~= texts_of(before).push(c@));
            assert(texts_of(v@).take(i + 1) =~= texts_of(v@).take(i as int).push(v@[i as int]@));
            assert(texts_of(out@) =~= texts_of(old(out)@) + texts_of(v@).take(i + 1));
        }
        i += 1;
    }
    proof {
        assert(texts_of(v@).take(v.len() as int) =~= texts_of(v@));
    }
}

fn icon_file_exec(dir: &str, name: &str, ext: &str) -> (out: String)
    ensures
        out@ == icon_file(dir@, name@, ext@),
{
    let a = concat(name, ".");
    let b = concat(a.as_str(), ext);
    proof {
        reveal_strlit(".");
        assert(b@ == name@ + "."@ + ext@);
    }
    path_join(dir, b.as_str())
}

fn literal_list(items: &[&str]) -> (out: Vec<String>)
    ensures
        texts_of(out@) == items@.map_values(|s: &str| s@),
{
    let mut out: Vec<String> = Vec::new();
    let mut i: usize = 0;
    while i < items.len()
        invariant
            i <= items.len(),
            texts_of(out@) == items@.map_values(|s: &str| s@).take(i as int),
        decreases items.len() - i,
    {
        out.push(items[i].to_owned());
        proof {
            assert(items@.map_values(|s: &str| s@).take(i + 1) =~= items@.map_values(|s: &str| s@).take(i as int).push(items@[i as int]@));
            assert(texts_of(out@) =~= items@.map_values(|s: &str| s@).take(i + 1));
        }
        i += 1;
    }
    proof {
        assert(items@.map_values(|s: &str| s@).take(items.len() as int) =~= items@.map_values(|s: &str| s@));
    }
    out
}

fn size_dir_files_exec(dir: &str, name: &str) -> (out: Vec<String>)
    ensures
        texts_of(out@) == size_dir_files(dir@, name@),
{
    let apps = path_join(dir, "apps");
    let devices = path_join(dir, "devices");
    let mut out: Vec<String> = Vec::new();
    out.push(icon_file_exec(apps.as_str(), name, "svg"));
    out.push(icon_file_exec(devices.as_str(), name, "svg"));
    out.push(icon_file_exec(apps.as_str(), name, "png"));
    out.push(icon_file_exec(devices.as_str(), name, "png"));
    proof {
        assert(texts_of(out@) =~= size_dir_files(dir@, name@));
    }
    out
}

fn sizes_files_exec(theme_dir: &str, name: &str, sizes: &Vec<String>) -> (out: Vec<String>)
    ensures
        texts_of(out@) == sizes_files(theme_dir@, name@, texts_of(sizes@)),
{
    let ghost sv = texts_of(sizes@);
    let mut out: Vec<String> = Vec::new();
    let mut i: usize = 0;
    while i < sizes.len()
        invariant
            i <= sizes.len(),
            sv == texts_of(sizes@),
            texts_of(out@) == sizes_files(theme_dir@, name@, sv.take(i as int)),
        decreases sizes.len() - i,
    {
        let d = path_join(theme_dir, sizes[i].as_str());
        let fs = size_dir_files_exec(d.as_str(), name);
        push_all(&mut out, fs);
        proof {
            assert(sv.take(i + 1).drop_last() =~= sv.take(i as int));
            assert(sv.take(i + 1).last() == sizes@[i as int]@);
        }
        i += 1;
    }
    proof {
        assert(sv.take(sizes.len() as int) =~= sv);
    }
    out
}

fn themes_files_exec(root: &str, name: &str, themes: &Vec<String>, sizes: &Vec<String>) -> (out: Vec<String>)
    requires
        texts_of(sizes@) == icon_sizes(),
    ensures
        texts_of(out@) == themes_files(root@, name@, texts_of(themes@)),
{
    let ghost tv = texts_of(themes@);
    let mut out: Vec<String> = Vec::new();
    let mut i: usize = 0;
    while i < themes.len()
        invariant
            i <= themes.len(),
            tv == texts_of(themes@),
            texts_of(sizes@) == icon_sizes(),
            texts_of(out@) == themes_files(root@, name@, tv.take(i as int)),
        decreases themes.len() - i,
    {
        let d = path_join(root, themes[i].as_str());
        let fs = sizes_files_exec(d.as_str(), name, sizes);
        push_all(&mut out, fs);
        proof {
            assert(tv.take(i + 1).drop_last() =~= tv.take(i as int));
            assert(tv.take(i + 1).last() == themes@[i as int]@);
        }
        i += 1;
    }
    proof {
        assert(tv.take(themes.len() as int) =~= tv);
    }
    out
}

fn shallow_files_exec(theme_dir: &str, name: &str, sizes: &Vec<String>) -> (out: Vec<String>)
    ensures
        texts_of(out@) == shallow_files(theme_dir@, name@, texts_of(sizes@)),
{
    let ghost sv = texts_of(sizes@);
    let mut out: Vec<String> = Vec::new();
    let mut i: usize = 0;
    while i < sizes.len()
        invariant
            i <= sizes.len(),
            sv == texts_of(sizes@),
            texts_of(out@) == shallow_files(theme_dir@, name@, sv.take(i as int)),
        decreases sizes.len() - i,
    {
        let d = path_join(theme_dir, sizes[i].as_str());
        let apps = path_join(d.as_str(), "apps");
        let ghost before = texts_of(out@);
        out.push(icon_file_exec(apps.as_str(), name, "svg"));
        out.push(icon_file_exec(apps.as_str(), name, "png"));
        proof {
            assert(sv.take(i + 1).drop_last() =~= sv.take(i as int));
            assert(sv.take(i + 1).last() == sizes@[i as int]@);
            assert(texts_of(out@) =~= shallow_files(theme_dir@, name@, sv.take(i + 1)));
        }
        i += 1;
    }
    proof {
        assert(sv.take(sizes.len() as int) =~= sv);
    }
    out
}

fn dirs_files_exec(dirs: &Vec<String>, name: &str, sizes: &Vec<String>) -> (out: Vec<String>)
    requires
        texts_of(sizes@) == shallow_sizes(),
    ensures
        texts_of(out@) == dirs_files(texts_of(dirs@), name@),
{
    let ghost dv = texts_of(dirs@);
    let mut out: Vec<String> = Vec::new();
    let mut i: usize = 0;
    while i < dirs.len()
        invariant
            i <= dirs.len(),
            dv == texts_of(dirs@),
            texts_of(sizes@) == shallow_sizes(),
            texts_of(out@) == dirs_files(dv.take(i as int), name@),
        decreases dirs.len() - i,
    {
        let fs = shallow_files_exec(dirs[i].as_str(), name, sizes);
        push_all(&mut out, fs);
        proof {
            assert(dv.take(i + 1).drop_last() =~= dv.take(i as int));
            assert(dv.take(i + 1).last() == dirs@[i as int]@);
        }
        i += 1;
    }
    proof {
        assert(dv.take(dirs.len() as int) =~= dv);
    }
    out
}

pub open spec fn dir_lists(v: Seq<Vec<String>>) -> Seq<Seq<Seq<char>>> {
    v.map_values(|d: Vec<String>| texts_of(d@))
}

/// The files an `Icon=` value may resolve to, in the order they are to be
/// tried, as [`icon_candidates_spec`] lists them. `roots` are the icon
/// directories (`~/.icons`, the data homes' `icons`) and `theme_dirs[r]`
/// the theme directories found under `roots[r]`; the caller takes the
/// first candidate that is a file.
pub fn icon_path_candidates(icon: &str, data_home: &str, roots: &Vec<String>, theme_dirs: &Vec<Vec<String>>) -> (out:
    Vec<String>)
    requires
        theme_dirs.len() == roots.len(),
    ensures
        texts_of(out@) == icon_candidates_spec(icon@, data_home@, texts_of(roots@), dir_lists(theme_dirs@)),
{
    let name = match icon_lookup_name(icon) {
        Some(n) => n,
        None => {
            return Vec::new();
        },
    };
    let mut out: Vec<String> = Vec::new();
    let t = trim_str(icon);
    if crate::fspath::is_absolute(t.as_str()) {
        out.push(t);
    }
    let local = path_join(data_home, "pixmaps");
    let ghost start = texts_of(out@);
    out.push(icon_file_exec("/usr/share/pixmaps", name.as_str(), "svg"));
    out.push(icon_file_exec(local.as_str(), name.as_str(), "svg"));
    out.push(icon_file_exec("/usr/share/pixmaps", name.as_str(), "png"));
    out.push(icon_file_exec(local.as_str(), name.as_str(), "png"));
    out.push(icon_file_exec("/usr/share/pixmaps", name.as_str(), "xpm"));
    out.push(icon_file_exec(local.as_str(), name.as_str(), "xpm"));
    proof {
        assert(texts_of(out@) =~= start + pixmap_files(data_home@, name@));
    }
    let themes = literal_list(&["hicolor", "Papirus", "Papirus-Dark", "breeze-dark", "breeze", "Adwaita"]);
    let sizes = literal_list(&["scalable", "512x512", "256x256", "128x128", "64x64", "48x48", "32x32", "24x24", "16x16"]);
    let shallow = literal_list(&["scalable", "128x128", "64x64", "48x48"]);
    proof {
        assert(texts_of(themes@) =~= icon_themes());
        assert(texts_of(sizes@) =~= icon_sizes());
        assert(texts_of(shallow@) =~= shallow_sizes());
    }
    let ghost head = texts_of(out@);
    let ghost rv = texts_of(roots@);
    let ghost dl = dir_lists(theme_dirs@);
    let mut r: usize = 0;
    while r < roots.len()
        invariant
            r <= roots.len(),
            theme_dirs.len() == roots.len(),
            rv == texts_of(roots@),
            dl == dir_lists(theme_dirs@),
            texts_of(themes@) == icon_themes(),
            texts_of(sizes@) == icon_sizes(),
            texts_of(shallow@) == shallow_sizes(),
            texts_of(out@) == head + roots_files(rv.take(r as int), dl.take(r as int), name@),
        decreases roots.len() - r,
    {
        let a = themes_files_exec(roots[r].as_str(), name.as_str(), &themes, &sizes);
        push_all(&mut out, a);
        let b = dirs_files_exec(&theme_dirs[r], name.as_str(), &shallow);
        push_all(&mut out, b);
        proof {
            assert(rv.take(r + 1).drop_last() =~= rv.take(r as int));
            assert(dl.take(r + 1).drop_last() =~= dl.take(r as int));
            assert(rv.take(r + 1).last() == roots@[r as int]@);
            assert(dl.take(r + 1).last() == texts_of(theme_dirs@[r as int]@));
            assert(roots_files(rv.take(r + 1), dl.take(r + 1), name@) == roots_files(rv.take(r as int), dl.take(r as int), name@)
                + themes_files(roots@[r as int]@, name@, icon_themes()) + dirs_files(texts_of(theme_dirs@[r as int]@), name@));
            assert(texts_of(out@) =~= head + roots_files(rv.take(r + 1), dl.take(r + 1), name@));
        }
        r += 1;
    }
    proof {
        assert(rv.take(roots.len() as int) =~= rv);
        assert(dl.take(roots.len() as int) =~= dl);
        assert(texts_of(out@) =~= icon_candidates_spec(icon@, data_home@, rv, dl));
    }
    out
}

} // verus!

verus! {

// ---------------------------------------------------------------------------
// mimeapps.list
// ---------------------------------------------------------------------------
/// A `[Section]` with its `key=value` entries, in file order.
pub type IniSections = Vec<(String, Vec<(String, String)>)>;

pub type IniSpec = Seq<(Seq<char>, Seq<(Seq<char>, Seq<char>)>)>;

/// One line of an ini file: blank lines and `#` comments are skipped,
/// `[name]` opens a section, and `key=value` (split at the first `'='`) is
/// added to the last section; lines before any section are ignored.
pub open spec fn ini_line(secs: IniSpec, raw: Seq<char>) -> IniSpec {
    let t = trim(raw);
    if t.len() == 0 || t[0] == '#' {
        secs
    } else if t.len() >= 2 && t[0] == '[' && t.last() == ']' {
        secs.push((t.subrange(1, t.len() - 1), Seq::empty()))
    } else if secs.len() == 0 {
        secs
    } else {
        match split_once(t, '=') {
            Some((k, v)) => secs.update(
                secs.len() - 1,
                (secs.last().0, secs.last().1.push((k, v))),
            ),
            None => secs,
        }
    }
}

pub open spec fn ini_lines(ls: Seq<Seq<char>>) -> IniSpec
    decreases ls.len(),
{
    if ls.len() == 0 {
        Seq::empty()
    } else {
        ini_line(ini_lines(ls.drop_last()), ls.last())
    }
}

pub open spec fn parse_ini(text: Seq<char>) -> IniSpec {
    ini_lines(lines(text))
}

pub open spec fn entries_view(es: Seq<(String, String)>) -> Seq<(Seq<char>, Seq<char>)> {
    es.map_values(|e: (String, String)| (e.0@, e.1@))
}

pub open spec fn ini_view(secs: Seq<(String, Vec<(String, String)>)>) -> IniSpec {
    secs.map_values(|s: (String, Vec<(String, String)>)| (s.0@, entries_view(s.1@)))
}

fn ini_one(secs: &mut IniSections, raw: &str)
    ensures
        ini_view(final(secs)@) == ini_line(ini_view(old(secs)@), raw@),
{
    let ghost before = ini_view(secs@);
    let t = trim_str(raw);
    let tv = chars_of(t.as_str());
    if tv.len() == 0 || tv[0] == '#' {
        return ;
    }
    if tv.len() >= 2 && tv[0] == '[' && tv[tv.len() - 1] == ']' {
        let name = string_of_range(&tv, 1, tv.len() - 1);
        let fresh: Vec<(String, String)> = Vec::new();
        proof {
            assert(entries_view(fresh@) =~= Seq::empty());
        }
        secs.push((name, fresh));
        proof {
            assert(ini_view(secs@) =~= before.push((t@.subrange(1, t@.len() - 1), Seq::empty())));
        }
        return ;
    }
    if secs.len() == 0 {
        return ;
    }
    match split_once_char(t.as_str(), '=') {
        Some((k, v)) => {
            let last = secs.len() - 1;
            let (name, mut entries) = secs.remove(last);
            let ghost es = entries_view(entries@);
            entries.push((k, v));
            proof {
                assert(entries_view(entries@) =~= es.push((k@, v@)));
            }
            secs.push((name, entries));
            proof {
                assert(ini_view(secs@) =~= before.update(
                    before.len() - 1,
                    (before.last().0, before.last().1.push((k@, v@))),
                ));
            }
        },
        None => {},
    }
}

/// Reads the sections of an ini file such as `mimeapps.list`.
pub fn parse_ini_sections(text: &str) -> (out: IniSections)
    ensures
        ini_view(out@) == parse_ini(text@),
{
    let ls = lines_of(text);
    let ghost lv = ls@.map_values(|l: String| l@);
    let mut out: IniSections = Vec::new();
    let mut i: usize = 0;
    proof {
        assert(lv.take(0) =~= Seq::<Seq<char>>::empty());
        assert(ini_view(out@) =~= Seq::empty());
    }
    while i < ls.len()
        invariant
            i <= ls.len(),
            lv == ls@.map_values(|l: String| l@),
            lv == lines(text@),
            ini_view(out@) == ini_lines(lv.take(i as int)),
        decreases ls.len() - i,
    {
        proof {
            assert(lv.take(i + 1).drop_last() =~= lv.take(i as int));
            assert(lv.take(i + 1).last() == ls@[i as int]@);
        }
        ini_one(&mut out, ls[i].as_str());
        i += 1;
    }
    proof {
        assert(lv.take(ls.len() as int) =~= lv);
    }
    out
}

/// Index of the first section called `name`.
pub open spec fn section_index(secs: IniSpec, name: Seq<char>) -> Option<int>
    decreases secs.len(),
{
    if secs.len() == 0 {
        None
    } else if secs[0].0 == name {
        Some(0)
    } else {
        match section_index(secs.drop_first(), name) {
            Some(i) => Some(i + 1),
            None => None,
        }
    }
}

pub proof fn lemma_section_index(secs: IniSpec, name: Seq<char>)
    ensures
        section_index(secs, name) matches Some(i) ==> 0 <= i < secs.len() && secs[i].0 == name
            && forall|k: int| 0 <= k < i ==> secs[k].0 != name,
        section_index(secs, name) is None ==> forall|k: int| 0 <= k < secs.len() ==> secs[k].0 != name,
    decreases secs.len(),
{
    if secs.len() > 0 {
        lemma_section_index(secs.drop_first(), name);
        assert forall|k: int| 1 <= k < secs.len() implies secs[k] == secs.drop_first()[k - 1] by {}
    }
}

pub proof fn lemma_section_index_is(secs: IniSpec, name: Seq<char>, i: int)
    requires
        0 <= i <= secs.len(),
        forall|k: int| 0 <= k < i ==> secs[k].0 != name,
        i < secs.len() ==> secs[i].0 == name,
    ensures
        i < secs.len() ==> section_index(secs, name) == Some(i),
        i == secs.len() ==> section_index(secs, name) is None,
    decreases secs.len(),
{
    if secs.len() > 0 && i > 0 {
        assert forall|k: int| 0 <= k < i - 1 implies secs.drop_first()[k].0 != name by {
            assert(secs.drop_first()[k] == secs[k + 1]);
        }
        if i < secs.len() {
            assert(secs.drop_first()[i - 1] == secs[i]);
        }
        lemma_section_index_is(secs.drop_first(), name, i - 1);
    }
}

/// Finds the section called `name`, appending an empty one if there is none.
pub fn section_mut(secs: &mut IniSections, name: &str) -> (idx: usize)
    ensures
        idx < final(secs).len(),
        ini_view(final(secs)@)[idx as int].0 == name@,
        match section_index(ini_view(old(secs)@), name@) {
            Some(i) => idx == i && final(secs)@ == old(secs)@,
            None => idx == old(secs).len() && ini_view(final(secs)@) == ini_view(old(secs)@).push(
                (name@, Seq::empty()),
            ),
        },
{
    let ghost sv = ini_view(secs@);
    let mut i: usize = 0;
    while i < secs.len()
        invariant
            i <= secs.len(),
            sv == ini_view(secs@),
            secs@ == old(secs)@,
            forall|k: int| 0 <= k < i ==> sv[k].0 != name@,
        decreases secs.len() - i,
    {
        if str_eq(secs[i].0.as_str(), name) {
            proof {
                lemma_section_index_is(sv, name@, i as int);
            }
            return i;
        }
        i += 1;
    }
    proof {
        lemma_section_index_is(sv, name@, sv.len() as int);
    }
    let fresh: Vec<(String, String)> = Vec::new();
    proof {
        assert(entries_view(fresh@) =~= Seq::empty());
    }
    secs.push((name.to_owned(), fresh));
    proof {
        assert(ini_view(secs@) =~= sv.push((name@, Seq::empty())));
    }
    secs.len() - 1
}

/// Index of the first entry with `key`.
pub open spec fn key_index(es: Seq<(Seq<char>, Seq<char>)>, key: Seq<char>) -> Option<int>
    decreases es.len(),
{
    if es.len() == 0 {
        None
    } else if es[0].0 == key {
        Some(0)
    } else {
        match key_index(es.drop_first(), key) {
            Some(i) => Some(i + 1),
            None => None,
        }
    }
}

/// The value of the first entry with `key`.
pub open spec fn lookup_key(es: Seq<(Seq<char>, Seq<char>)>, key: Seq<char>) -> Option<Seq<char>> {
    match key_index(es, key) {
        Some(i) => Some(es[i].1),
        None => None,
    }
}

pub proof fn lemma_key_index_is(es: Seq<(Seq<char>, Seq<char>)>, key: Seq<char>, i: int)
    requires
        0 <= i <= es.len(),
        forall|k: int| 0 <= k < i ==> es[k].0 != key,
        i < es.len() ==> es[i].0 == key,
    ensures
        i < es.len() ==> key_index(es, key) == Some(i),
        i == es.len() ==> key_index(es, key) is None,
    decreases es.len(),
{
    if es.len() > 0 && i > 0 {
        assert forall|k: int| 0 <= k < i - 1 implies es.drop_first()[k].0 != key by {
            assert(es.drop_first()[k] == es[k + 1]);
        }
        if i < es.len() {
            assert(es.drop_first()[i - 1] == es[i]);
        }
        lemma_key_index_is(es.drop_first(), key, i - 1);
    }
}

/// Sets `key` to `value`: the first entry with that key is overwritten, or a
/// new entry is appended.
pub fn upsert_key(entries: &mut Vec<(String, String)>, key: &str, value: String)
    ensures
        match key_index(entries_view(old(entries)@), key@) {
            Some(i) => entries_view(final(entries)@) == entries_view(old(entries)@).update(
                i,
                (key@, value@),
            ),
            None => entries_view(final(entries)@) == entries_view(old(entries)@).push(
                (key@, value@),
            ),
        },
{
    let ghost ev = entries_view(entries@);
    let mut i: usize = 0;
    while i < entries.len()
        invariant
            i <= entries.len(),
            ev == entries_view(entries@),
            entries@ == old(entries)@,
            forall|k: int| 0 <= k < i ==> ev[k].0 != key@,
        decreases entries.len() - i,
    {
        if str_eq(entries[i].0.as_str(), key) {
            proof {
                lemma_key_index_is(ev, key@, i as int);
            }
            let ghost old_e = entries@;
            let (k, _old) = entries.remove(i);
            proof {
                assert(k@ == ev[i as int].0);
            }
            entries.insert(i, (k, value));
            proof {
                assert(entries@ =~= old_e.update(i as int, (k, value)));
                assert(entries_view(entries@) =~= ev.update(i as int, (key@, value@)));
            }
            return ;
        }
        i += 1;
    }
    proof {
        lemma_key_index_is(ev, key@, ev.len() as int);
    }
    entries.push((key.to_owned(), value));
    proof {
        assert(entries_view(entries@) =~= ev.push((key@, value@)));
    }
}

/// After `upsert_key`, looking the key up gives the value that was set.
pub proof fn law_upsert_then_lookup(
    before: Seq<(Seq<char>, Seq<char>)>,
    after: Seq<(Seq<char>, Seq<char>)>,
    key: Seq<char>,
    value: Seq<char>,
)
    requires
        match key_index(before, key) {
            Some(i) => after == before.update(i, (key, value)),
            None => after == before.push((key, value)),
        },
    ensures
        lookup_key(after, key) == Some(value),
{
    match key_index(before, key) {
        Some(i) => {
            lemma_key_index_bounds(before, key);
            lemma_key_index_is(after, key, i);
        },
        None => {
            lemma_key_index_bounds(before, key);
            lemma_key_index_is(after, key, before.len() as int);
        },
    }
}

pub proof fn lemma_key_index_bounds(es: Seq<(Seq<char>, Seq<char>)>, key: Seq<char>)
    ensures
        key_index(es, key) matches Some(i) ==> 0 <= i < es.len() && es[i].0 == key && forall|
            k: int,
        |
            0 <= k < i ==> es[k].0 != key,
        key_index(es, key) is None ==> forall|k: int| 0 <= k < es.len() ==> es[k].0 != key,
    decreases es.len(),
{
    if es.len() > 0 {
        lemma_key_index_bounds(es.drop_first(), key);
        assert forall|k: int| 1 <= k < es.len() implies es[k] == es.drop_first()[k - 1] by {}
    }
}

} // verus!

verus! {

pub open spec fn upsert_spec(es: Seq<(Seq<char>, Seq<char>)>, key: Seq<char>, value: Seq<char>) -> Seq<
    (Seq<char>, Seq<char>),
> {
    match key_index(es, key) {
        Some(i) => es.update(i, (key, value)),
        None => es.push((key, value)),
    }
}

/// An association list value with `desktop` listed: unchanged when it is
/// already one of the `;`-separated items, else appended with a `;` after it.
pub open spec fn with_association(cur: Seq<char>, desktop: Seq<char>) -> Seq<char> {
    if split_all(cur, ';').contains(desktop) {
        cur
    } else {
        let t = crate::text::trim_end_char(cur, ';');
        (if t.len() > 0 {
            t.push(';')
        } else {
            t
        }) + desktop.push(';')
    }
}

pub open spec fn add_association_spec(
    es: Seq<(Seq<char>, Seq<char>)>,
    mime: Seq<char>,
    desktop: Seq<char>,
) -> Seq<(Seq<char>, Seq<char>)> {
    match key_index(es, mime) {
        Some(i) => es.update(i, (es[i].0, with_association(es[i].1, desktop))),
        None => es.push((mime, desktop.push(';'))),
    }
}

/// The sections with a section called `name`, and its index.
pub open spec fn with_section(secs: IniSpec, name: Seq<char>) -> (IniSpec, int) {
    match section_index(secs, name) {
        Some(i) => (secs, i),
        None => (secs.push((name, Seq::empty())), secs.len() as int),
    }
}

pub open spec fn default_apps() -> Seq<char> {
    "Default Applications"@
}

pub open spec fn added_assocs() -> Seq<char> {
    "Added Associations"@
}

/// `mimeapps.list` sections after making `desktop` the handler of `mime`.
pub open spec fn mimeapps_sections(secs: IniSpec, mime: Seq<char>, desktop: Seq<char>) -> IniSpec {
    let (s1, i) = with_section(secs, default_apps());
    let s2 = s1.update(i, (s1[i].0, upsert_spec(s1[i].1, mime, desktop)));
    let (s3, j) = with_section(s2, added_assocs());
    s3.update(j, (s3[j].0, add_association_spec(s3[j].1, mime, desktop)))
}

pub open spec fn entry_text(k: Seq<char>, v: Seq<char>) -> Seq<char> {
    k + seq!['='] + v + seq!['\n']
}

pub open spec fn entries_text(es: Seq<(Seq<char>, Seq<char>)>) -> Seq<char>
    decreases es.len(),
{
    if es.len() == 0 {
        Seq::empty()
    } else {
        entries_text(es.drop_last()) + entry_text(es.last().0, es.last().1)
    }
}

pub open spec fn section_text(s: (Seq<char>, Seq<(Seq<char>, Seq<char>)>)) -> Seq<char> {
    seq!['['] + s.0 + seq![']', '\n'] + entries_text(s.1)
}

/// The ini text of the sections: each section as `[name]` and its
/// `key=value` lines, with a blank line between sections.
pub open spec fn serialize_ini(secs: IniSpec) -> Seq<char> {
    join(secs.map_values(|s: (Seq<char>, Seq<(Seq<char>, Seq<char>)>)| section_text(s)), seq!['\n'])
}

// ---------------------------------------------------------------------------
// Reading back what was written
// ---------------------------------------------------------------------------
pub open spec fn no_line_break(s: Seq<char>) -> bool {
    forall|k: int| 0 <= k < s.len() ==> #[trigger] s[k] != '\n' && s[k] != '\r'
}

/// A key that reads back as itself: one line, no `'='`, and not starting
/// with white space, `#` or `[`.
pub open spec fn key_reads_back(k: Seq<char>) -> bool {
    &&& no_line_break(k)
    &&& forall|i: int| 0 <= i < k.len() ==> #[trigger] k[i] != '='
    &&& k.len() > 0 ==> !crate::text::is_ws(k[0]) && k[0] != '#' && k[0] != '['
}

/// A value that reads back as itself: one line, not ending with white
/// space.
pub open spec fn value_reads_back(v: Seq<char>) -> bool {
    no_line_break(v) && (v.len() > 0 ==> !crate::text::is_ws(v.last()))
}

/// A section that reads back as itself: a one-line name, and keys and
/// values as above.
pub open spec fn section_reads_back(s: (Seq<char>, Seq<(Seq<char>, Seq<char>)>)) -> bool {
    &&& no_line_break(s.0)
    &&& forall|j: int| 0 <= j < s.1.len() ==> key_reads_back(#[trigger] s.1[j].0) && value_reads_back(s.1[j].1)
}

/// Sections that each read back as themselves.
pub open spec fn ini_reads_back(secs: IniSpec) -> bool {
    forall|i: int| 0 <= i < secs.len() ==> section_reads_back(#[trigger] secs[i])
}

/// The lines of the entries' text.
pub open spec fn entry_lines(es: Seq<(Seq<char>, Seq<char>)>) -> Seq<Seq<char>>
    decreases es.len(),
{
    if es.len() == 0 {
        Seq::empty()
    } else {
        entry_lines(es.drop_last()).push(es.last().0 + seq!['='] + es.last().1)
    }
}

pub open spec fn section_lines(s: (Seq<char>, Seq<(Seq<char>, Seq<char>)>)) -> Seq<Seq<char>> {
    seq![seq!['['] + s.0 + seq![']']] + entry_lines(s.1)
}

/// The lines of the text of the sections.
pub open spec fn all_lines(secs: IniSpec) -> Seq<Seq<char>>
    decreases secs.len(),
{
    if secs.len() == 0 {
        Seq::empty()
    } else if secs.len() == 1 {
        section_lines(secs[0])
    } else {
        all_lines(secs.drop_last()) + seq![Seq::<char>::empty()] + section_lines(secs.last())
    }
}

/// Reading `ls` after the sections `init`.
pub open spec fn ini_fold(init: IniSpec, ls: Seq<Seq<char>>) -> IniSpec
    decreases ls.len(),
{
    if ls.len() == 0 {
        init
    } else {
        ini_line(ini_fold(init, ls.drop_last()), ls.last())
    }
}

proof fn lemma_first_index_is(s: Seq<char>, c: char, i: int)
    requires
        0 <= i < s.len(),
        s[i] == c,
        forall|k: int| 0 <= k < i ==> s[k] != c,
    ensures
        crate::text::first_index(s, c) == Some(i),
    decreases i,
{
    if i > 0 {
        lemma_first_index_is(s.drop_first(), c, i - 1);
    }
}

proof fn lemma_lines_first(x: Seq<char>, y: Seq<char>)
    requires
        forall|k: int| 0 <= k < x.len() ==> x[k] != '\n',
    ensures
        lines(x + seq!['\n'] + y) == seq![crate::text::strip_cr(x)] + lines(y),
{
    let s = x + seq!['\n'] + y;
    lemma_first_index_is(s, '\n', x.len() as int);
    assert(s.subrange(0, x.len() as int) =~= x);
    assert(s.subrange(x.len() as int + 1, s.len() as int) =~= y);
}

proof fn lemma_lines_concat(a: Seq<char>, b: Seq<char>)
    requires
        a.len() == 0 || a.last() == '\n',
    ensures
        lines(a + b) == lines(a) + lines(b),
    decreases a.len(),
{
    if a.len() == 0 {
        assert(a + b =~= b);
        assert(lines(a) =~= Seq::<Seq<char>>::empty());
        assert(lines(a) + lines(b) =~= lines(b));
    } else {
        crate::text::lemma_first_index_bounds(a, '\n');
        let i = crate::text::first_index(a, '\n').unwrap();
        let x = a.subrange(0, i);
        let rest = a.subrange(i + 1, a.len() as int);
        assert(a =~= x + seq!['\n'] + rest);
        lemma_lines_first(x, rest);
        assert(a + b =~= x + seq!['\n'] + (rest + b));
        lemma_lines_first(x, rest + b);
        lemma_lines_concat(rest, b);
        assert(lines(a + b) =~= lines(a) + lines(b));
    }
}

proof fn lemma_one_line(x: Seq<char>)
    requires
        forall|k: int| 0 <= k < x.len() ==> x[k] != '\n',
        x.len() > 0 ==> x.last() != '\r',
    ensures
        lines(x + seq!['\n']) == seq![x],
{
    lemma_lines_first(x, Seq::empty());
    assert(x + seq!['\n'] + Seq::<char>::empty() =~= x + seq!['\n']);
    assert(lines(Seq::<char>::empty()) =~= Seq::<Seq<char>>::empty());
    assert(seq![crate::text::strip_cr(x)] + Seq::<Seq<char>>::empty() =~= seq![x]);
}

proof fn lemma_entries_lines(es: Seq<(Seq<char>, Seq<char>)>)
    requires
        forall|j: int| 0 <= j < es.len() ==> key_reads_back(#[trigger] es[j].0) && value_reads_back(es[j].1),
    ensures
        lines(entries_text(es)) == entry_lines(es),
        entries_text(es).len() == 0 || entries_text(es).last() == '\n',
    decreases es.len(),
{
    if es.len() == 0 {
        assert(lines(Seq::<char>::empty()) =~= Seq::<Seq<char>>::empty());
    } else {
        let d = es.drop_last();
        assert forall|j: int| 0 <= j < d.len() implies key_reads_back(#[trigger] d[j].0) && value_reads_back(d[j].1) by {
            assert(d[j] == es[j]);
        }
        lemma_entries_lines(d);
        let (k, v) = es.last();
        assert(key_reads_back(es[es.len() - 1].0) && value_reads_back(es[es.len() - 1].1));
        let line = k + seq!['='] + v;
        assert forall|t: int| 0 <= t < line.len() implies line[t] != '\n' by {
            if t < k.len() {
                assert(line[t] == k[t]);
            } else if t > k.len() {
                assert(line[t] == v[t - k.len() - 1]);
            }
        }
        assert(line.last() != '\r') by {
            if v.len() > 0 {
                assert(line.last() == v.last());
            }
        }
        lemma_one_line(line);
        assert(entry_text(k, v) =~= line + seq!['\n']);
        lemma_lines_concat(entries_text(d), entry_text(k, v));
        assert(lines(entries_text(es)) =~= entry_lines(es));
    }
}

proof fn lemma_section_lines(s: (Seq<char>, Seq<(Seq<char>, Seq<char>)>))
    requires
        no_line_break(s.0),
        forall|j: int| 0 <= j < s.1.len() ==> key_reads_back(#[trigger] s.1[j].0) && value_reads_back(s.1[j].1),
    ensures
        lines(section_text(s)) == section_lines(s),
        section_text(s).last() == '\n',
{
    let head = seq!['['] + s.0 + seq![']'];
    assert forall|t: int| 0 <= t < head.len() implies head[t] != '\n' by {
        if 0 < t < head.len() - 1 {
            assert(head[t] == s.0[t - 1]);
        }
    }
    lemma_one_line(head);
    lemma_entries_lines(s.1);
    assert(section_text(s) =~= (head + seq!['\n']) + entries_text(s.1));
    lemma_lines_concat(head + seq!['\n'], entries_text(s.1));
    assert(lines(section_text(s)) =~= section_lines(s));
}

proof fn lemma_reads_back_drop_last(secs: IniSpec)
    requires
        secs.len() > 0,
        ini_reads_back(secs),
    ensures
        ini_reads_back(secs.drop_last()),
{
    let d = secs.drop_last();
    assert forall|i: int| 0 <= i < d.len() implies section_reads_back(#[trigger] d[i]) by {
        assert(d[i] == secs[i]);
        assert(section_reads_back(secs[i]));
    }
}

proof fn lemma_all_lines(secs: IniSpec)
    requires
        ini_reads_back(secs),
    ensures
        lines(serialize_ini(secs)) == all_lines(secs),
        secs.len() > 0 ==> serialize_ini(secs).last() == '\n',
    decreases secs.len(),
{
    let f = |s: (Seq<char>, Seq<(Seq<char>, Seq<char>)>)| section_text(s);
    let texts = secs.map_values(f);
    if secs.len() == 0 {
        assert(lines(Seq::<char>::empty()) =~= Seq::<Seq<char>>::empty());
    } else {
        let last = secs.last();
        assert(section_reads_back(secs[secs.len() - 1]));
        lemma_section_lines(last);
        if secs.len() == 1 {
            assert(serialize_ini(secs) == texts[0]);
        } else {
            let d = secs.drop_last();
            lemma_reads_back_drop_last(secs);
            lemma_all_lines(d);
            assert(texts.drop_last() =~= d.map_values(f));
            let j = serialize_ini(d);
            assert(serialize_ini(secs) == j + seq!['\n'] + section_text(last));
            assert(j + seq!['\n'] + section_text(last) =~= j + (seq!['\n'] + section_text(last)));
            lemma_lines_concat(j, seq!['\n'] + section_text(last));
            lemma_lines_first(Seq::empty(), section_text(last));
            assert(Seq::<char>::empty() + seq!['\n'] + section_text(last) =~= seq!['\n'] + section_text(last));
            assert(crate::text::strip_cr(Seq::<char>::empty()) == Seq::<char>::empty());
            assert(lines(serialize_ini(secs)) =~= all_lines(secs));
        }
    }
}

proof fn lemma_ini_fold_concat(init: IniSpec, a: Seq<Seq<char>>, b: Seq<Seq<char>>)
    ensures
        ini_fold(init, a + b) == ini_fold(ini_fold(init, a), b),
    decreases b.len(),
{
    if b.len() == 0 {
        assert(a + b =~= a);
    } else {
        lemma_ini_fold_concat(init, a, b.drop_last());
        assert((a + b).drop_last() =~= a + b.drop_last());
        assert((a + b).last() == b.last());
    }
}

proof fn lemma_ini_lines_fold(ls: Seq<Seq<char>>)
    ensures
        ini_lines(ls) == ini_fold(Seq::empty(), ls),
    decreases ls.len(),
{
    if ls.len() > 0 {
        lemma_ini_lines_fold(ls.drop_last());
    }
}

proof fn lemma_trim_same(t: Seq<char>)
    requires
        t.len() > 0,
        !crate::text::is_ws(t[0]),
        !crate::text::is_ws(t.last()),
    ensures
        trim(t) == t,
{
}

proof fn lemma_read_entries(init: IniSpec, name: Seq<char>, es: Seq<(Seq<char>, Seq<char>)>)
    requires
        forall|j: int| 0 <= j < es.len() ==> key_reads_back(#[trigger] es[j].0) && value_reads_back(es[j].1),
    ensures
        ini_fold(init.push((name, Seq::empty())), entry_lines(es)) == init.push((name, es)),
    decreases es.len(),
{
    if es.len() == 0 {
        assert(es =~= Seq::<(Seq<char>, Seq<char>)>::empty());
    } else {
        let d = es.drop_last();
        assert forall|j: int| 0 <= j < d.len() implies key_reads_back(#[trigger] d[j].0) && value_reads_back(d[j].1) by {
            assert(d[j] == es[j]);
        }
        lemma_read_entries(init, name, d);
        let (k, v) = es.last();
        assert(key_reads_back(es[es.len() - 1].0) && value_reads_back(es[es.len() - 1].1));
        let line = k + seq!['='] + v;
        assert(entry_lines(es).drop_last() =~= entry_lines(d));
        assert(entry_lines(es).last() == line);
        assert(line[0] != '#' && line[0] != '[' && !crate::text::is_ws(line[0])) by {
            if k.len() > 0 {
                assert(line[0] == k[0]);
            } else {
                assert(line[0] == '=');
            }
        }
        assert(!crate::text::is_ws(line.last())) by {
            if v.len() > 0 {
                assert(line.last() == v.last());
            } else {
                assert(line.last() == '=');
            }
        }
        lemma_trim_same(line);
        assert forall|t: int| 0 <= t < k.len() implies line[t] != '=' by {
            assert(line[t] == k[t]);
        }
        lemma_first_index_is(line, '=', k.len() as int);
        assert(line.subrange(0, k.len() as int) =~= k);
        assert(line.subrange(k.len() as int + 1, line.len() as int) =~= v);
        assert(d.push((k, v)) =~= es);
        let before = init.push((name, d));
        assert(before.update(before.len() - 1, (name, d.push((k, v)))) =~= init.push((name, es)));
    }
}

proof fn lemma_read_section(init: IniSpec, s: (Seq<char>, Seq<(Seq<char>, Seq<char>)>))
    requires
        forall|j: int| 0 <= j < s.1.len() ==> key_reads_back(#[trigger] s.1[j].0) && value_reads_back(s.1[j].1),
    ensures
        ini_fold(init, section_lines(s)) == init.push(s),
{
    let head = seq!['['] + s.0 + seq![']'];
    lemma_trim_same(head);
    assert(head.subrange(1, head.len() - 1) =~= s.0);
    assert(ini_fold(init, seq![head]) == ini_line(ini_fold(init, seq![head].drop_last()), head));
    assert(seq![head].drop_last() =~= Seq::<Seq<char>>::empty());
    lemma_ini_fold_concat(init, seq![head], entry_lines(s.1));
    lemma_read_entries(init, s.0, s.1);
}

proof fn lemma_read_all(secs: IniSpec)
    requires
        ini_reads_back(secs),
    ensures
        ini_fold(Seq::empty(), all_lines(secs)) == secs,
    decreases secs.len(),
{
    if secs.len() == 0 {
        assert(secs =~= Seq::<(Seq<char>, Seq<(Seq<char>, Seq<char>)>)>::empty());
    } else {
        let last = secs.last();
        assert(section_reads_back(secs[secs.len() - 1]));
        if secs.len() == 1 {
            lemma_read_section(Seq::empty(), last);
            assert(Seq::<(Seq<char>, Seq<(Seq<char>, Seq<char>)>)>::empty().push(last) =~= secs);
        } else {
            let d = secs.drop_last();
            lemma_reads_back_drop_last(secs);
            lemma_read_all(d);
            let blank = seq![Seq::<char>::empty()];
            lemma_ini_fold_concat(Seq::empty(), all_lines(d) + blank, section_lines(last));
            lemma_ini_fold_concat(Seq::empty(), all_lines(d), blank);
            assert(blank.drop_last() =~= Seq::<Seq<char>>::empty());
            assert(ini_fold(d, Seq::<Seq<char>>::empty()) == d);
            assert(blank.last() == Seq::<char>::empty());
            assert(ini_fold(d, blank) == ini_line(d, Seq::<char>::empty()));
            lemma_read_section(d, last);
            assert(d.push(last) =~= secs);
        }
    }
}

/// Reading back the text that [`serialize_ini_sections`] writes gives the
/// same sections, entries and order, for sections whose names, keys and
/// values read back as themselves.
pub proof fn law_ini_round_trip(secs: IniSpec)
    requires
        ini_reads_back(secs),
    ensures
        parse_ini(serialize_ini(secs)) == secs,
{
    lemma_all_lines(secs);
    lemma_ini_lines_fold(all_lines(secs));
    lemma_read_all(secs);
}

/// The new `mimeapps.list` text, or `None` when `mime` is blank and nothing
/// is written.
pub open spec fn mimeapps_update(text: Seq<char>, mime: Seq<char>, app_id: Seq<char>) -> Option<
    Seq<char>,
> {
    let m = trim(mime);
    if m.len() == 0 {
        None
    } else {
        Some(serialize_ini(mimeapps_sections(parse_ini(text), m, desktop_file_of(app_id))))
    }
}

fn push_char(s: &mut String, c: char)
    ensures
        final(s)@ == old(s)@.push(c),
{
    s.push(c);
}

/// Lists `desktop` among the associations for `mime`.
pub fn add_association(entries: &mut Vec<(String, String)>, mime: &str, desktop: &str)
    ensures
        entries_view(final(entries)@) == add_association_spec(
            entries_view(old(entries)@),
            mime@,
            desktop@,
        ),
{
    let ghost ev = entries_view(entries@);
    let mut i: usize = 0;
    while i < entries.len()
        invariant
            i <= entries.len(),
            ev == entries_view(entries@),
            entries@ == old(entries)@,
            forall|k: int| 0 <= k < i ==> ev[k].0 != mime@,
        decreases entries.len() - i,
    {
        if str_eq(entries[i].0.as_str(), mime) {
            proof {
                lemma_key_index_is(ev, mime@, i as int);
            }
            let ghost old_e = entries@;
            let (k, current) = entries.remove(i);
            let next = association_value(current.as_str(), desktop);
            entries.insert(i, (k, next));
            proof {
                assert(entries_view(entries@) =~= ev.update(
                    i as int,
                    (ev[i as int].0, with_association(ev[i as int].1, desktop@)),
                ));
            }
            return ;
        }
        i += 1;
    }
    proof {
        lemma_key_index_is(ev, mime@, ev.len() as int);
    }
    let mut v = desktop.to_owned();
    push_char(&mut v, ';');
    entries.push((mime.to_owned(), v));
    proof {
        assert(entries_view(entries@) =~= ev.push((mime@, desktop@.push(';'))));
    }
}

fn is_listed(cur: &str, desktop: &str) -> (b: bool)
    ensures
        b == split_all(cur@, ';').contains(desktop@),
{
    let parts = crate::fspath::split_char(cur, ';');
    let ghost pv = parts@.map_values(|x: String| x@);
    let mut i: usize = 0;
    while i < parts.len()
        invariant
            i <= parts.len(),
            pv == parts@.map_values(|x: String| x@),
            pv == split_all(cur@, ';'),
            forall|k: int| 0 <= k < i ==> pv[k] != desktop@,
        decreases parts.len() - i,
    {
        if str_eq(parts[i].as_str(), desktop) {
            proof {
                assert(pv[i as int] == desktop@);
            }
            return true;
        }
        i += 1;
    }
    false
}

fn association_value(cur: &str, desktop: &str) -> (out: String)
    ensures
        out@ == with_association(cur@, desktop@),
{
    if is_listed(cur, desktop) {
        return cur.to_owned();
    }
    let cv = chars_of(cur);
    let mut end = cv.len();
    proof {
        assert(cv@.subrange(0, cv@.len() as int) =~= cv@);
    }
    while end > 0 && cv[end - 1] == ';'
        invariant
            end <= cv.len(),
            cv@ == cur@,
            crate::text::trim_end_char(cur@, ';') == crate::text::trim_end_char(
                cv@.subrange(0, end as int),
                ';',
            ),
        decreases end,
    {
        proof {
            let pre = cv@.subrange(0, end as int);
            assert(pre.last() == cv@[end - 1]);
            assert(pre.drop_last() =~= cv@.subrange(0, end - 1));
        }
        end -= 1;
    }
    proof {
        let pre = cv@.subrange(0, end as int);
        if end > 0 {
            assert(pre.last() == cv@[end - 1]);
        }
    }
    let mut next = string_of_range(&cv, 0, end);
    if end > 0 {
        push_char(&mut next, ';');
    }
    crate::text::push_str(&mut next, desktop);
    push_char(&mut next, ';');
    proof {
        let t = cv@.subrange(0, end as int);
        let lead = if t.len() > 0 {
            t.push(';')
        } else {
            t
        };
        assert(next@ =~= lead + desktop@.push(';'));
    }
    next
}

fn push_entry_text(out: &mut String, k: &str, v: &str)
    ensures
        final(out)@ == old(out)@ + entry_text(k@, v@),
{
    let ghost start = out@;
    crate::text::push_str(out, k);
    push_char(out, '=');
    crate::text::push_str(out, v);
    push_char(out, '\n');
    proof {
        assert(out@ =~= start + entry_text(k@, v@));
    }
}

fn push_section_text(out: &mut String, name: &str, entries: &Vec<(String, String)>)
    ensures
        final(out)@ == old(out)@ + section_text((name@, entries_view(entries@))),
{
    let ghost start = out@;
    push_char(out, '[');
    crate::text::push_str(out, name);
    push_char(out, ']');
    push_char(out, '\n');
    let ghost head = out@;
    let ghost ev = entries_view(entries@);
    let mut i: usize = 0;
    proof {
        assert(ev.take(0) =~= Seq::<(Seq<char>, Seq<char>)>::empty());
        assert(out@ =~= head + entries_text(ev.take(0)));
    }
    while i < entries.len()
        invariant
            i <= entries.len(),
            ev == entries_view(entries@),
            out@ == head + entries_text(ev.take(i as int)),
        decreases entries.len() - i,
    {
        proof {
            assert(ev.take(i + 1).drop_last() =~= ev.take(i as int));
            assert(ev.take(i + 1).last() == (entries@[i as int].0@, entries@[i as int].1@));
        }
        push_entry_text(out, entries[i].0.as_str(), entries[i].1.as_str());
        proof {
            assert(out@ =~= head + entries_text(ev.take(i + 1)));
        }
        i += 1;
    }
    proof {
        assert(ev.take(entries.len() as int) =~= ev);
        assert(out@ =~= start + section_text((name@, ev)));
    }
}

/// Writes the sections back as ini text.
pub fn serialize_ini_sections(secs: &IniSections) -> (out: String)
    ensures
        out@ == serialize_ini(ini_view(secs@)),
{
    let ghost sv = ini_view(secs@);
    let ghost texts = sv.map_values(|s: (Seq<char>, Seq<(Seq<char>, Seq<char>)>)| section_text(s));
    let mut out = String::new();
    let mut i: usize = 0;
    while i < secs.len()
        invariant
            i <= secs.len(),
            sv == ini_view(secs@),
            texts == sv.map_values(|s: (Seq<char>, Seq<(Seq<char>, Seq<char>)>)| section_text(s)),
            out@ == join(texts.take(i as int), seq!['\n']),
        decreases secs.len() - i,
    {
        proof {
            assert(texts.take(i + 1).drop_last() =~= texts.take(i as int));
            assert(texts.take(i + 1).last() == section_text(sv[i as int]));
            assert(sv[i as int] == (secs@[i as int].0@, entries_view(secs@[i as int].1@)));
        }
        let ghost before = out@;
        if i > 0 {
            push_char(&mut out, '\n');
        }
        push_section_text(&mut out, secs[i].0.as_str(), &secs[i].1);
        proof {
            if i == 0 {
                assert(texts.take(1).len() == 1);
                assert(out@ =~= join(texts.take(1), seq!['\n']));
            } else {
                assert(out@ =~= before + seq!['\n'] + section_text(sv[i as int]));
            }
        }
        i += 1;
    }
    proof {
        assert(texts.take(secs.len() as int) =~= texts);
    }
    out
}

/// The `mimeapps.list` text that makes `app_id` the default handler of
/// `mime`, given the current text (empty when the file does not exist).
/// `None` means that `mime` is blank and nothing is to be written.
pub fn update_mimeapps(text: &str, mime: &str, app_id: &str) -> (out: Option<String>)
    ensures
        match mimeapps_update(text@, mime@, app_id@) {
            Some(t) => out matches Some(s) && s@ == t,
            None => out is None,
        },
{
    let m = trim_str(mime);
    if m.as_str().is_empty() {
        return None;
    }
    let desktop = desktop_file_name(app_id);
    let mut secs = parse_ini_sections(text);
    proof {
        reveal_strlit("Default Applications");
        reveal_strlit("Added Associations");
    }
    let ghost s0 = ini_view(secs@);
    let i = section_mut(&mut secs, "Default Applications");
    let ghost s1 = ini_view(secs@);
    proof {
        let (w, wi) = with_section(s0, default_apps());
        assert(s1 == w);
        assert(i == wi);
    }
    let (name_d, mut defaults) = secs.remove(i);
    upsert_key(&mut defaults, m.as_str(), desktop.clone());
    secs.insert(i, (name_d, defaults));
    let ghost s2 = ini_view(secs@);
    proof {
        assert(s2 =~= s1.update(i as int, (s1[i as int].0, upsert_spec(s1[i as int].1, m@, desktop@))));
    }
    let j = section_mut(&mut secs, "Added Associations");
    let ghost s3 = ini_view(secs@);
    proof {
        let (w, wj) = with_section(s2, added_assocs());
        assert(s3 == w);
        assert(j == wj);
    }
    let (name_a, mut added) = secs.remove(j);
    add_association(&mut added, m.as_str(), desktop.as_str());
    secs.insert(j, (name_a, added));
    proof {
        assert(ini_view(secs@) =~= s3.update(
            j as int,
            (s3[j as int].0, add_association_spec(s3[j as int].1, m@, desktop@)),
        ));
    }
    Some(serialize_ini_sections(&secs))
}

} // verus!

verus! {

/// Splitting at a separator splits the two sides independently.
pub proof fn lemma_split_concat(x: Seq<char>, y: Seq<char>, c: char)
    ensures
        split_all(x + seq![c] + y, c) == split_all(x, c) + split_all(y, c),
    decreases x.len(),
{
    let s = x + seq![c] + y;
    crate::text::lemma_first_index_bounds(x, c);
    match crate::text::first_index(x, c) {
        Some(i) => {
            assert forall|k: int| 0 <= k < i implies s[k] != c by {
                assert(s[k] == x[k]);
            }
            assert(s[i] == x[i]);
            crate::text::lemma_first_index_is(s, c, i);
            let xr = x.subrange(i + 1, x.len() as int);
            lemma_split_concat(xr, y, c);
            assert(s.subrange(i + 1, s.len() as int) =~= xr + seq![c] + y);
            assert(s.subrange(0, i) =~= x.subrange(0, i));
            assert(split_all(s, c) =~= seq![x.subrange(0, i)] + (split_all(xr, c) + split_all(y, c)));
            assert(split_all(x, c) =~= seq![x.subrange(0, i)] + split_all(xr, c));
        },
        None => {
            assert forall|k: int| 0 <= k < x.len() implies s[k] != c by {
                assert(s[k] == x[k]);
            }
            assert(s[x.len() as int] == c);
            crate::text::lemma_first_index_is(s, c, x.len() as int);
            assert(s.subrange(x.len() as int + 1, s.len() as int) =~= y);
            assert(s.subrange(0, x.len() as int) =~= x);
        },
    }
}

pub proof fn lemma_split_plain(d: Seq<char>, c: char)
    requires
        !d.contains(c),
    ensures
        split_all(d, c) == seq![d],
{
    assert forall|k: int| 0 <= k < d.len() implies d[k] != c by {
        if d[k] == c {
            assert(d.contains(c));
        }
    }
    crate::text::lemma_first_index_is(d, c, d.len() as int);
}

/// A value after `with_association` lists `desktop`.
pub proof fn lemma_with_association_lists(cur: Seq<char>, desktop: Seq<char>)
    requires
        !desktop.contains(';'),
    ensures
        split_all(with_association(cur, desktop), ';').contains(desktop),
{
    if !split_all(cur, ';').contains(desktop) {
        let t = crate::text::trim_end_char(cur, ';');
        let tail = desktop.push(';');
        lemma_split_concat(desktop, Seq::empty(), ';');
        assert(desktop + seq![';'] + Seq::<char>::empty() =~= tail);
        lemma_split_plain(desktop, ';');
        assert(split_all(tail, ';')[0] == desktop);
        if t.len() > 0 {
            lemma_split_concat(t, tail, ';');
            assert(t.push(';') + tail =~= t + seq![';'] + tail);
            let all = split_all(t, ';') + split_all(tail, ';');
            assert(all[split_all(t, ';').len() as int] == desktop);
        } else {
            assert(Seq::<char>::empty() + tail =~= tail);
        }
    }
}

pub proof fn lemma_with_section(secs: IniSpec, name: Seq<char>)
    ensures
        ({
            let (s, i) = with_section(secs, name);
            &&& 0 <= i < s.len()
            &&& section_index(s, name) == Some(i)
            &&& s.len() >= secs.len()
            &&& forall|k: int| 0 <= k < secs.len() ==> s[k] == secs[k]
        }),
{
    lemma_section_index(secs, name);
    match section_index(secs, name) {
        Some(i) => {},
        None => {
            let s = secs.push((name, Seq::empty()));
            assert forall|k: int| 0 <= k < secs.len() implies s[k].0 != name by {
                assert(s[k] == secs[k]);
            }
            lemma_section_index_is(s, name, secs.len() as int);
        },
    }
}

/// What `update_mimeapps` writes makes `desktop` the default handler of
/// `mime` and lists it among the added associations for `mime`.
pub proof fn law_mimeapps_sets_default(secs: IniSpec, mime: Seq<char>, desktop: Seq<char>)
    requires
        !desktop.contains(';'),
    ensures
        ({
            let r = mimeapps_sections(secs, mime, desktop);
            &&& section_index(r, default_apps()) matches Some(i) && lookup_key(r[i].1, mime)
                == Some(desktop)
            &&& section_index(r, added_assocs()) matches Some(j) && (lookup_key(r[j].1, mime) matches Some(
                v,
            ) && split_all(v, ';').contains(desktop))
        }),
{
    reveal_strlit("Default Applications");
    reveal_strlit("Added Associations");
    assert(default_apps() != added_assocs()) by {
        assert(default_apps()[1] != added_assocs()[1]);
    }
    let (s1, i) = with_section(secs, default_apps());
    lemma_with_section(secs, default_apps());
    let es1 = s1[i].1;
    let s2 = s1.update(i, (s1[i].0, upsert_spec(es1, mime, desktop)));
    law_upsert_then_lookup(es1, upsert_spec(es1, mime, desktop), mime, desktop);
    lemma_section_index(s1, default_apps());
    assert forall|k: int| 0 <= k < i implies s2[k].0 != default_apps() by {
        assert(s2[k] == s1[k]);
    }
    lemma_section_index_is(s2, default_apps(), i);
    let (s3, j) = with_section(s2, added_assocs());
    lemma_with_section(s2, added_assocs());
    lemma_section_index(s3, added_assocs());
    assert(s2[i].0 == default_apps());
    assert(s3[i] == s2[i]);
    assert(j != i);
    assert(s3[i] == s2[i]);
    let r = s3.update(j, (s3[j].0, add_association_spec(s3[j].1, mime, desktop)));
    assert(r == mimeapps_sections(secs, mime, desktop));
    assert forall|k: int| 0 <= k < i implies r[k].0 != default_apps() by {
        assert(r[k].0 == s3[k].0);
        assert(s3[k] == s2[k]);
    }
    lemma_section_index_is(r, default_apps(), i);
    lemma_section_index(s3, added_assocs());
    assert forall|k: int| 0 <= k < j implies r[k].0 != added_assocs() by {
        assert(r[k] == s3[k]);
    }
    lemma_section_index_is(r, added_assocs(), j);
    // The association entry.
    let es3 = s3[j].1;
    let es4 = add_association_spec(es3, mime, desktop);
    lemma_key_index_bounds(es3, mime);
    match key_index(es3, mime) {
        Some(k) => {
            assert forall|m: int| 0 <= m < k implies es4[m].0 != mime by {
                assert(es4[m] == es3[m]);
            }
            lemma_key_index_is(es4, mime, k);
            lemma_with_association_lists(es3[k].1, desktop);
        },
        None => {
            assert forall|m: int| 0 <= m < es3.len() implies es4[m].0 != mime by {
                assert(es4[m] == es3[m]);
            }
            lemma_key_index_is(es4, mime, es3.len() as int);
            lemma_with_association_lists(Seq::empty(), desktop);
            let empty = Seq::<char>::empty();
            assert(!split_all(empty, ';').contains(desktop) ==> with_association(empty, desktop)
                == desktop.push(';')) by {
                assert(crate::text::trim_end_char(empty, ';') =~= empty);
                assert(empty + desktop.push(';') =~= desktop.push(';'));
            }
            if split_all(empty, ';').contains(desktop) {
                // `desktop` is the empty string.
                crate::text::lemma_first_index_is(empty, ';', 0);
                assert(split_all(empty, ';') =~= seq![empty]);
                assert(desktop =~= empty);
                lemma_split_concat(empty, empty, ';');
                assert(empty + seq![';'] + empty =~= desktop.push(';'));
                assert(split_all(desktop.push(';'), ';')[0] == empty);
            }
        },
    }
}

} // verus!

verus! {

// ---------------------------------------------------------------------------
// Application directories and the full list
// ---------------------------------------------------------------------------
pub open spec fn default_data_dirs() -> Seq<char> {
    "/usr/local/share:/usr/share"@
}

/// `<part>/<leaf>` for every non-empty `part` of a colon-separated list.
pub open spec fn dirs_under(parts: Seq<Seq<char>>, leaf: Seq<char>) -> Seq<Seq<char>>
    decreases parts.len(),
{
    if parts.len() == 0 {
        Seq::empty()
    } else if parts.last().len() > 0 {
        dirs_under(parts.drop_last(), leaf).push(join_path(parts.last(), leaf))
    } else {
        dirs_under(parts.drop_last(), leaf)
    }
}

/// The directories named by `$XDG_DATA_DIRS` (or its default), each with
/// `leaf` appended.
pub open spec fn data_dirs_with(xdg_data_dirs: Option<Seq<char>>, leaf: Seq<char>) -> Seq<Seq<char>> {
    let list = match xdg_data_dirs {
        Some(v) => v,
        None => default_data_dirs(),
    };
    dirs_under(split_all(list, ':'), leaf)
}

/// `leaf` under each directory of `$XDG_DATA_DIRS` (`None` when unset).
#[verifier::rlimit(30)]
pub fn data_dirs_joined(xdg_data_dirs: Option<&str>, leaf: &str) -> (out: Vec<String>)
    ensures
        out@.map_values(|s: String| s@) == data_dirs_with(
            match xdg_data_dirs {
                Some(v) => Some(v@),
                None => None,
            },
            leaf@,
        ),
{
    proof {
        reveal_strlit("/usr/local/share:/usr/share");
    }
    let list: &str = match xdg_data_dirs {
        Some(v) => v,
        None => "/usr/local/share:/usr/share",
    };
    let parts = crate::fspath::split_char(list, ':');
    let ghost pv = parts@.map_values(|s: String| s@);
    let mut out: Vec<String> = Vec::new();
    let mut i: usize = 0;
    proof {
        assert(pv.take(0) =~= Seq::<Seq<char>>::empty());
        assert(out@.map_values(|s: String| s@) =~= Seq::<Seq<char>>::empty());
    }
    while i < parts.len()
        invariant
            i <= parts.len(),
            pv == parts@.map_values(|s: String| s@),
            pv == split_all(list@, ':'),
            out@.map_values(|s: String| s@) == dirs_under(pv.take(i as int), leaf@),
        decreases parts.len() - i,
    {
        proof {
            assert(pv.take(i + 1).drop_last() =~= pv.take(i as int));
            assert(pv.take(i + 1).last() == parts@[i as int]@);
        }
        let ghost before = out@.map_values(|s: String| s@);
        if !parts[i].as_str().is_empty() {
            let d = path_join(parts[i].as_str(), leaf);
            out.push(d);
            proof {
                assert(out@.map_values(|s: String| s@) =~= before.push(d@));
            }
        }
        i += 1;
    }
    proof {
        assert(pv.take(parts.len() as int) =~= pv);
    }
    out
}

/// Where desktop entries are looked up, in order: the user's data and config
/// directories, then the system data directories.
pub open spec fn application_dirs_spec(
    data_home: Seq<char>,
    config_home: Seq<char>,
    xdg_data_dirs: Option<Seq<char>>,
) -> Seq<Seq<char>> {
    seq![join_path(data_home, "applications"@), join_path(config_home, "applications"@)]
        + data_dirs_with(xdg_data_dirs, "applications"@)
}

pub fn application_dirs(data_home: &str, config_home: &str, xdg_data_dirs: Option<&str>) -> (out:
    Vec<String>)
    ensures
        out@.map_values(|s: String| s@) == application_dirs_spec(
            data_home@,
            config_home@,
            match xdg_data_dirs {
                Some(v) => Some(v@),
                None => None,
            },
        ),
{
    let mut out: Vec<String> = Vec::new();
    out.push(path_join(data_home, "applications"));
    out.push(path_join(config_home, "applications"));
    let rest = data_dirs_joined(xdg_data_dirs, "applications");
    let ghost head = out@.map_values(|s: String| s@);
    let ghost rv = rest@.map_values(|s: String| s@);
    let mut i: usize = 0;
    while i < rest.len()
        invariant
            i <= rest.len(),
            rv == rest@.map_values(|s: String| s@),
            out@.map_values(|s: String| s@) == head + rv.take(i as int),
        decreases rest.len() - i,
    {
        let ghost before = out@.map_values(|s: String| s@);
        out.push(rest[i].clone());
        proof {
            assert(out@.map_values(|s: String| s@) =~= before.push(rest@[i as int]@));
            assert(rv.take(i + 1) =~= rv.take(i as int).push(rv[i as int]));
            assert(out@.map_values(|s: String| s@) =~= head + rv.take(i + 1));
        }
        i += 1;
    }
    proof {
        assert(rv.take(rest.len() as int) =~= rv);
        assert(head =~= seq![
            join_path(data_home@, "applications"@),
            join_path(config_home@, "applications"@),
        ]);
    }
    out
}

/// Entries that may be listed: visible ones, the first per id.
pub open spec fn visible_unique(apps: Seq<DesktopApp>) -> Seq<DesktopApp>
    decreases apps.len(),
{
    if apps.len() == 0 {
        Seq::empty()
    } else {
        let r = visible_unique(apps.drop_last());
        let a = apps.last();
        if !a.no_display && !r.map_values(|x: DesktopApp| x.id@).contains(a.id@) {
            r.push(a)
        } else {
            r
        }
    }
}

pub open spec fn name_key(a: DesktopApp) -> Seq<u64> {
    unicode_lowercase(a.name@).map_values(|c: char| c as u64)
}

fn has_id(apps: &Vec<DesktopApp>, id: &String) -> (b: bool)
    ensures
        b == apps@.map_values(|x: DesktopApp| x.id@).contains(id@),
{
    let ghost ids = apps@.map_values(|x: DesktopApp| x.id@);
    let mut i: usize = 0;
    while i < apps.len()
        invariant
            i <= apps.len(),
            ids == apps@.map_values(|x: DesktopApp| x.id@),
            forall|k: int| 0 <= k < i ==> ids[k] != id@,
        decreases apps.len() - i,
    {
        if apps[i].id == *id {
            proof {
                assert(ids[i as int] == id@);
            }
            return true;
        }
        i += 1;
    }
    false
}

/// Every visible application, the first entry per id, sorted by
/// lower-cased name (ties keep the order in which they were found).
/// `found` holds the entries parsed from the application directories, in
/// directory order.
pub fn list_all(found: Vec<DesktopApp>) -> (out: Vec<DesktopApp>)
    ensures
        sorted_by_keys(
            out@,
            visible_unique(found@),
            visible_unique(found@).map_values(|a: DesktopApp| name_key(a)),
            false,
        ),
{
    let ghost all = found@;
    let mut src = found;
    let mut rev: Vec<DesktopApp> = Vec::new();
    let n = src.len();
    while src.len() > 0
        invariant
            src.len() + rev.len() == n,
            n == all.len(),
            forall|k: int| 0 <= k < src.len() ==> #[trigger] src@[k] == all[k],
            forall|k: int| 0 <= k < rev.len() ==> #[trigger] rev@[k] == all[n - 1 - k],
        decreases src.len(),
    {
        let a = src.pop().unwrap();
        rev.push(a);
    }
    let mut kept: Vec<DesktopApp> = Vec::new();
    let mut taken: usize = 0;
    while rev.len() > 0
        invariant
            rev.len() + taken == n,
            n == all.len(),
            forall|k: int| 0 <= k < rev.len() ==> #[trigger] rev@[k] == all[n - 1 - k],
            kept@ == visible_unique(all.take(taken as int)),
        decreases rev.len(),
    {
        let a = rev.pop().unwrap();
        proof {
            assert(a == all[taken as int]);
            assert(all.take(taken + 1).drop_last() =~= all.take(taken as int));
            assert(all.take(taken + 1).last() == a);
        }
        if !a.no_display && !has_id(&kept, &a.id) {
            kept.push(a);
        }
        taken += 1;
    }
    proof {
        assert(all.take(n as int) =~= all);
    }
    let ghost vis = kept@;
    let mut keys: Vec<Vec<u64>> = Vec::new();
    let mut i: usize = 0;
    while i < kept.len()
        invariant
            i <= kept.len(),
            vis == kept@,
            keys@.map_values(|k: Vec<u64>| k@) == vis.take(i as int).map_values(
                |a: DesktopApp| name_key(a),
            ),
        decreases kept.len() - i,
    {
        let lower = to_lowercase(kept[i].name.as_str());
        let k = char_key(lower.as_str());
        let ghost before = keys@.map_values(|k: Vec<u64>| k@);
        keys.push(k);
        proof {
            assert(keys@.map_values(|k: Vec<u64>| k@) =~= before.push(name_key(vis[i as int])));
            assert(vis.take(i + 1).map_values(|a: DesktopApp| name_key(a)) =~= vis.take(
                i as int,
            ).map_values(|a: DesktopApp| name_key(a)).push(name_key(vis[i as int])));
        }
        i += 1;
    }
    proof {
        assert(vis.take(kept.len() as int) =~= vis);
    }
    sort_by_keys(kept, keys, false)
}

/// The apps offered by the app chooser: the entries for the given ids (each
/// `found[k]` is [`load_app`]'s result for `ids[k]`, missing ones dropped),
/// or every visible application when no ids were given (`listed` holds the
/// entries parsed from the application directories).
pub fn load_apps(ids: &Vec<String>, found: Vec<Option<DesktopApp>>, listed: Vec<DesktopApp>) -> (out:
    Vec<DesktopApp>)
    requires
        found.len() == ids.len(),
    ensures
        ids.len() == 0 ==> sorted_by_keys(
            out@,
            visible_unique(listed@),
            visible_unique(listed@).map_values(|a: DesktopApp| name_key(a)),
            false,
        ),
        ids.len() > 0 ==> out@ == found@.filter_map(|o: Option<DesktopApp>| o),
{
    if ids.len() == 0 {
        return list_all(listed);
    }
    let ghost all = found@;
    let n = found.len();
    let mut src = found;
    let mut rev: Vec<Option<DesktopApp>> = Vec::new();
    while src.len() > 0
        invariant
            src.len() + rev.len() == n,
            n == all.len(),
            forall|k: int| 0 <= k < src.len() ==> #[trigger] src@[k] == all[k],
            forall|k: int| 0 <= k < rev.len() ==> #[trigger] rev@[k] == all[n - 1 - k],
        decreases src.len(),
    {
        let a = src.pop().unwrap();
        rev.push(a);
    }
    let mut out: Vec<DesktopApp> = Vec::new();
    let mut taken: usize = 0;
    while rev.len() > 0
        invariant
            rev.len() + taken == n,
            n == all.len(),
            forall|k: int| 0 <= k < rev.len() ==> #[trigger] rev@[k] == all[n - 1 - k],
            out@ == all.take(taken as int).filter_map(|o: Option<DesktopApp>| o),
        decreases rev.len(),
    {
        let a = rev.pop().unwrap();
        proof {
            assert(a == all[taken as int]);
            let t = all.take(taken + 1);
            assert(t.drop_last() =~= all.take(taken as int));
            assert(t.last() == a);
            reveal(Seq::filter_map);
        }
        match a {
            Some(app) => out.push(app),
            None => {},
        }
        taken += 1;
    }
    proof {
        assert(all.take(n as int) =~= all);
    }
    out
}

} // verus!
