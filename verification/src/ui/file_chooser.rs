//! The file chooser's state: the folder shown and its entries, the
//! selection, sorting, and what accepting the dialog gives. Listing folders,
//! asking the file system about paths and drawing the dialog are left to
//! the caller, which passes in what it found.
use crate::dict::Choice;
use crate::filters::{code_key, filter_matches, FileFilter, FilterPattern, PatternSpec};
use crate::fspath::{
    components, comps, file_name, is_abs, is_absolute, join_path, parent, path_file_name, path_join,
    path_parent, path_starts_with, path_starts_with_exec, paths_equal, render, render_exec, same_path,
};
use crate::order::{is_sorting, sort_by_keys, sorted_by_keys};
use crate::paths::{
    dot_ext_of, opt_view, probed, stem_and_ext, unique_choice_avoiding, unique_path_avoiding, RecentFile,
};
use crate::text::{chars_of, char_key, find, has_prefix, starts_with, str_eq, to_lowercase, trim, trim_str, unicode_lowercase};
use crate::desktop::contains_str;
use vstd::prelude::*;

verus! {

/// What the file chooser is for.
#[derive(Clone, Copy, Debug, PartialEq, Eq, Structural)]
pub enum FileMode {
    Open,
    Save,
    SaveFiles,
}

/// A file-chooser request.
#[derive(Clone, Debug)]
pub struct FileChooserRequest {
    pub title: String,
    pub accept_label: String,
    pub mode: FileMode,
    pub multiple: bool,
    pub directory: bool,
    pub filters: Vec<FileFilter>,
    pub current_filter: Option<usize>,
    pub choices: Vec<Choice>,
    pub current_folder: String,
    /// Host path of the file to preselect when saving.
    pub current_file: Option<String>,
    pub current_name: String,
    pub save_names: Vec<String>,
}

/// What the file chooser hands back.
#[derive(Clone, Debug)]
pub struct FileChooserResult {
    pub paths: Vec<String>,
    pub choices: Vec<(String, String)>,
    pub current_filter: Option<(String, Vec<(u32, String)>)>,
}

/// Whether the dialog is still open, accepted or cancelled.
#[derive(Clone, Copy, Debug, PartialEq, Eq, Structural)]
pub enum Outcome {
    Pending,
    Accept,
    Cancel,
}

/// The column the entries are sorted by.
#[derive(Clone, Copy, Debug, PartialEq, Eq, Structural)]
pub enum SortKey {
    Name,
    Size,
    Time,
}

/// What the file system says a path is.
#[derive(Clone, Copy, Debug, PartialEq, Eq, Structural)]
pub enum PathKind {
    Missing,
    File,
    Dir,
    /// Exists, but is neither a regular file nor a directory.
    Other,
}

/// A row of the file list. `modified` is `(seconds, nanoseconds)` since the
/// epoch, when known.
#[derive(Clone, Debug)]
pub struct Entry {
    pub name: String,
    pub path: String,
    pub is_dir: bool,
    pub size: u64,
    pub modified: Option<(u64, u32)>,
}

/// The file chooser's state.
pub struct ChooserApp {
    pub req: FileChooserRequest,
    pub folder: String,
    pub entries: Vec<Entry>,
    pub selected: Vec<String>,
    pub filter_index: Option<usize>,
    pub filename: String,
    pub query: String,
    pub path_edit: String,
    pub show_hidden: bool,
    pub error: Option<String>,
    pub new_folder: Option<String>,
    pub overwrite: Option<String>,
    pub choice_values: Vec<String>,
    pub outcome: Outcome,
    pub sort_key: SortKey,
    pub sort_reversed: bool,
    pub recent_mode: bool,
    pub editing_path: bool,
    pub last_query: String,
    /// The folder or view changed: its entries must be listed again.
    pub needs_refresh: bool,
}

// ---------------------------------------------------------------------------
// Specifications
// ---------------------------------------------------------------------------
pub open spec fn strs(v: Seq<String>) -> Seq<Seq<char>> {
    v.map_values(|s: String| s@)
}

/// The sort key of an entry for a column.
pub open spec fn entry_key(e: Entry, key: SortKey) -> Seq<u64> {
    match key {
        SortKey::Name => code_key(unicode_lowercase(e.name@)),
        SortKey::Size => seq![e.size],
        SortKey::Time => match e.modified {
            Some((s, n)) => seq![s, n as u64],
            None => Seq::empty(),
        },
    }
}

pub open spec fn entry_keys(es: Seq<Entry>, key: SortKey) -> Seq<Seq<u64>> {
    es.map_values(|e: Entry| entry_key(e, key))
}

/// The entries that are (`dirs`) or are not directories, in order.
pub open spec fn of_kind(es: Seq<Entry>, dirs: bool) -> Seq<Entry>
    decreases es.len(),
{
    if es.len() == 0 {
        Seq::empty()
    } else {
        let rest = of_kind(es.drop_last(), dirs);
        if es.last().is_dir == dirs {
            rest.push(es.last())
        } else {
            rest
        }
    }
}

/// `out` is `es` with directories first, each group stably sorted by the
/// column, descending when `rev`.
pub open spec fn sorted_entries(out: Seq<Entry>, es: Seq<Entry>, key: SortKey, rev: bool) -> bool {
    let d = of_kind(es, true);
    let f = of_kind(es, false);
    &&& out.len() == d.len() + f.len()
    &&& sorted_by_keys(out.take(d.len() as int), d, entry_keys(d, key), rev)
    &&& sorted_by_keys(out.skip(d.len() as int), f, entry_keys(f, key), rev)
}

/// Whether a row shows: hidden names only when asked for, and names that
/// contain the search text, ignoring case.
pub open spec fn name_shown(name: Seq<char>, show_hidden: bool, query: Seq<char>) -> bool {
    &&& show_hidden || !has_prefix(name, "."@)
    &&& query.len() == 0 || find(unicode_lowercase(name), unicode_lowercase(query)) is Some
}

/// The rows kept from a folder listing are the listed entries that show:
/// each kept row was listed and its name passes the hidden-file and
/// search rules, and each listed entry that shows is kept.
pub proof fn law_listing_rows(app: ChooserApp, es: Seq<Entry>)
    ensures
        forall|k: int|
            0 <= k < shown_dir_entries(app, es).len() ==> es.contains(#[trigger] shown_dir_entries(app, es)[k])
                && name_shown(shown_dir_entries(app, es)[k].name@, app.show_hidden, app.query@),
        forall|k: int| 0 <= k < es.len() && dir_entry_shown(app, #[trigger] es[k]) ==> shown_dir_entries(app, es).contains(
            es[k],
        ),
    decreases es.len(),
{
    if es.len() > 0 {
        let pre = es.drop_last();
        law_listing_rows(app, pre);
        let rest = shown_dir_entries(app, pre);
        let sh = shown_dir_entries(app, es);
        assert forall|k: int| 0 <= k < sh.len() implies es.contains(#[trigger] sh[k]) && name_shown(
            sh[k].name@,
            app.show_hidden,
            app.query@,
        ) by {
            if k < rest.len() {
                assert(sh[k] == rest[k]);
                let j = choose|j: int| 0 <= j < pre.len() && pre[j] == rest[k];
                assert(es[j] == pre[j]);
            } else {
                assert(sh[k] == es.last());
                assert(es[es.len() - 1] == es.last());
            }
        }
        assert forall|k: int| 0 <= k < es.len() && dir_entry_shown(app, #[trigger] es[k]) implies sh.contains(es[k]) by {
            if k < pre.len() {
                assert(pre[k] == es[k]);
                assert(rest.contains(pre[k]));
                let j = choose|j: int| 0 <= j < rest.len() && rest[j] == pre[k];
                if dir_entry_shown(app, es.last()) {
                    assert(sh[j] == rest[j]);
                }
            } else {
                assert(sh[sh.len() - 1] == es.last());
            }
        }
    }
}

/// Whether `p` occurs in `s` as a run of consecutive characters.
pub open spec fn occurs_in(p: Seq<char>, s: Seq<char>) -> bool {
    exists|k: int| 0 <= k && k + p.len() <= s.len() && #[trigger] s.subrange(k, k + p.len()) == p
}

/// The search keeps exactly the names that contain the search text,
/// ignoring case: a name that is not hidden shows under an empty search,
/// and under any other search exactly when its lower-case form contains
/// the search text's; a hidden name (one starting with `'.'`) shows only
/// when hidden files are shown.
pub proof fn law_search_keeps_matching_names(name: Seq<char>, show_hidden: bool, query: Seq<char>)
    ensures
        !show_hidden && has_prefix(name, "."@) ==> !name_shown(name, show_hidden, query),
        (show_hidden || !has_prefix(name, "."@)) && query.len() == 0 ==> name_shown(name, show_hidden, query),
        (show_hidden || !has_prefix(name, "."@)) && query.len() > 0 ==> (name_shown(name, show_hidden, query)
            <==> occurs_in(unicode_lowercase(query), unicode_lowercase(name))),
{
    let ln = unicode_lowercase(name);
    let lq = unicode_lowercase(query);
    crate::text::lemma_find_from_bounds(ln, lq, 0);
    if occurs_in(lq, ln) {
        let k = choose|k: int| 0 <= k && k + lq.len() <= ln.len() && #[trigger] ln.subrange(k, k + lq.len()) == lq;
        crate::text::lemma_find_from_complete(ln, lq, 0, k);
    }
    if find(ln, lq) is Some {
        let i = find(ln, lq).unwrap();
        assert(ln.subrange(i, i + lq.len()) == lq);
    }
}

/// Whether a listed entry shows in a folder view: its name shows; files
/// are left out when choosing a folder to open, and when they fail the
/// current filter.
pub open spec fn dir_entry_shown(app: ChooserApp, e: Entry) -> bool {
    &&& name_shown(e.name@, app.show_hidden, app.query@)
    &&& !(!e.is_dir && app.req.directory && app.req.mode == FileMode::Open)
    &&& !(!e.is_dir && (app.filter_index matches Some(i) && i < app.req.filters.len()
        && !filter_matches(app.req.filters@[i as int].patterns_spec(), e.path@)))
}

pub open spec fn shown_dir_entries(app: ChooserApp, es: Seq<Entry>) -> Seq<Entry>
    decreases es.len(),
{
    if es.len() == 0 {
        Seq::empty()
    } else {
        let rest = shown_dir_entries(app, es.drop_last());
        if dir_entry_shown(app, es.last()) {
            rest.push(es.last())
        } else {
            rest
        }
    }
}

/// The index of the first path of `s` that is the same path as `p`.
pub open spec fn first_same(s: Seq<Seq<char>>, p: Seq<char>) -> Option<int>
    decreases s.len(),
{
    if s.len() == 0 {
        None
    } else if same_path(s[0], p) {
        Some(0)
    } else {
        match first_same(s.drop_first(), p) {
            Some(i) => Some(i + 1),
            None => None,
        }
    }
}

pub proof fn lemma_first_same(s: Seq<Seq<char>>, p: Seq<char>)
    ensures
        first_same(s, p) matches Some(i) ==> 0 <= i < s.len() && same_path(s[i], p) && forall|k: int|
            0 <= k < i ==> !same_path(#[trigger] s[k], p),
        first_same(s, p) is None ==> forall|k: int| 0 <= k < s.len() ==> !same_path(#[trigger] s[k], p),
    decreases s.len(),
{
    if s.len() > 0 {
        lemma_first_same(s.drop_first(), p);
        assert forall|k: int| 1 <= k < s.len() implies s[k] == s.drop_first()[k - 1] by {}
    }
}

/// Whether `p` is among the paths of `s`.
pub open spec fn holds_path(s: Seq<Seq<char>>, p: Seq<char>) -> bool {
    exists|i: int| 0 <= i < s.len() && same_path(#[trigger] s[i], p)
}

// ---------------------------------------------------------------------------
// Helpers
// ---------------------------------------------------------------------------
/// The index of the first of `v` that is the same path as `p`.
fn position_of(v: &Vec<String>, p: &str) -> (out: Option<usize>)
    ensures
        match first_same(strs(v@), p@) {
            Some(i) => out == Some(i as usize),
            None => out is None,
        },
{
    let ghost sv = strs(v@);
    proof {
        lemma_first_same(sv, p@);
    }
    let mut i: usize = 0;
    while i < v.len()
        invariant
            i <= v.len(),
            sv == strs(v@),
            forall|k: int| 0 <= k < i ==> !same_path(#[trigger] sv[k], p@),
            first_same(sv, p@) matches Some(j) ==> 0 <= j < sv.len() && same_path(sv[j], p@) && forall|k: int|
                0 <= k < j ==> !same_path(#[trigger] sv[k], p@),
            first_same(sv, p@) is None ==> forall|k: int| 0 <= k < sv.len() ==> !same_path(#[trigger] sv[k], p@),
        decreases v.len() - i,
    {
        proof {
            assert(sv[i as int] == v@[i as int]@);
        }
        if paths_equal(v[i].as_str(), p) {
            proof {
                match first_same(sv, p@) {
                    Some(j) => {
                        if j < i {
                            assert(!same_path(sv[j], p@));
                        }
                        if j > i {
                            assert(!same_path(sv[i as int], p@));
                        }
                    },
                    None => {
                        assert(!same_path(sv[i as int], p@));
                    },
                }
            }
            return Some(i);
        }
        i += 1;
    }
    proof {
        if let Some(j) = first_same(sv, p@) {
            assert(!same_path(sv[j], p@));
        }
    }
    None
}

/// The entries of one kind, and their sort keys.
fn split_kind(es: &Vec<Entry>, dirs: bool, key: SortKey) -> (out: (Vec<Entry>, Vec<Vec<u64>>))
    ensures
        out.0@ == of_kind(es@, dirs),
        out.1@.map_values(|k: Vec<u64>| k@) == entry_keys(of_kind(es@, dirs), key),
{
    let mut items: Vec<Entry> = Vec::new();
    let mut keys: Vec<Vec<u64>> = Vec::new();
    let mut i: usize = 0;
    while i < es.len()
        invariant
            i <= es.len(),
            items@ == of_kind(es@.take(i as int), dirs),
            keys@.map_values(|k: Vec<u64>| k@) == entry_keys(of_kind(es@.take(i as int), dirs), key),
        decreases es.len() - i,
    {
        proof {
            assert(es@.take(i + 1).drop_last() =~= es@.take(i as int));
        }
        if es[i].is_dir == dirs {
            let e = clone_entry(&es[i]);
            let k = entry_key_exec(&es[i], key);
            let ghost kb = keys@.map_values(|k: Vec<u64>| k@);
            items.push(e);
            keys.push(k);
            proof {
                assert(keys@.map_values(|k: Vec<u64>| k@) =~= kb.push(entry_key(es@[i as int], key)));
                assert(entry_keys(of_kind(es@.take(i + 1), dirs), key) =~= entry_keys(
                    of_kind(es@.take(i as int), dirs),
                    key,
                ).push(entry_key(es@[i as int], key)));
            }
        }
        i += 1;
    }
    proof {
        assert(es@.take(es@.len() as int) =~= es@);
    }
    (items, keys)
}

fn clone_entry(e: &Entry) -> (out: Entry)
    ensures
        out == *e,
{
    Entry {
        name: e.name.clone(),
        path: e.path.clone(),
        is_dir: e.is_dir,
        size: e.size,
        modified: e.modified,
    }
}

fn entry_key_exec(e: &Entry, key: SortKey) -> (out: Vec<u64>)
    ensures
        out@ == entry_key(*e, key),
{
    match key {
        SortKey::Name => {
            let lower = to_lowercase(e.name.as_str());
            char_key(lower.as_str())
        },
        SortKey::Size => {
            let mut v: Vec<u64> = Vec::new();
            v.push(e.size);
            proof {
                assert(v@ =~= seq![e.size]);
            }
            v
        },
        SortKey::Time => {
            let mut v: Vec<u64> = Vec::new();
            match e.modified {
                Some((s, n)) => {
                    v.push(s);
                    v.push(n as u64);
                    proof {
                        assert(v@ =~= seq![s, n as u64]);
                    }
                },
                None => {},
            }
            v
        },
    }
}

/// Sorts entries: directories first, each group stably by the column.
pub fn sort_entries(es: Vec<Entry>, key: SortKey, rev: bool) -> (out: Vec<Entry>)
    ensures
        sorted_entries(out@, es@, key, rev),
{
    let (d, dk) = split_kind(&es, true, key);
    let (f, fk) = split_kind(&es, false, key);
    let ghost dv = d@;
    let ghost fv = f@;
    proof {
        assert(dk@.map_values(|k: Vec<u64>| k@).len() == dk@.len());
        assert(fk@.map_values(|k: Vec<u64>| k@).len() == fk@.len());
    }
    let mut sd = sort_by_keys(d, dk, rev);
    let sf = sort_by_keys(f, fk, rev);
    let ghost sdv = sd@;
    let ghost sfv = sf@;
    proof {
        let p = choose|p: Seq<int>| is_sorting(p, sdv, dv, entry_keys(dv, key), rev);
        let q = choose|p: Seq<int>| is_sorting(p, sfv, fv, entry_keys(fv, key), rev);
        assert(sdv.len() == dv.len());
        assert(sfv.len() == fv.len());
    }
    let mut j: usize = 0;
    while j < sf.len()
        invariant
            j <= sf.len(),
            sf@ == sfv,
            sd@ == sdv + sfv.take(j as int),
        decreases sf.len() - j,
    {
        let x = clone_entry(&sf[j]);
        sd.push(x);
        proof {
            assert(sd@ =~= sdv + sfv.take(j + 1));
        }
        j += 1;
    }
    proof {
        assert(sfv.take(sfv.len() as int) =~= sfv);
        assert(sd@.take(dv.len() as int) =~= sdv);
        assert(sd@.skip(dv.len() as int) =~= sfv);
    }
    sd
}

/// Whether a name shows in the list.
fn name_shown_exec(name: &str, show_hidden: bool, query: &str) -> (out: bool)
    ensures
        out == name_shown(name@, show_hidden, query@),
{
    if !show_hidden && starts_with(name, ".") {
        return false;
    }
    if query.is_empty() {
        return true;
    }
    let n = to_lowercase(name);
    let q = to_lowercase(query);
    contains_str(n.as_str(), q.as_str())
}

// ---------------------------------------------------------------------------
// The chooser's state
// ---------------------------------------------------------------------------
/// Whether a call of `kind` on the path `p` may have answered `k`.
pub open spec fn kinded<K: Fn(&str) -> PathKind>(kind: K, p: Seq<char>, k: PathKind) -> bool {
    exists|s: &str| s@ == p && #[trigger] kind.ensures((s,), k)
}

/// The folder the chooser opens in: the requested one when it is a
/// directory, else its parent when that is one, else the home directory.
pub open spec fn initial_folder_ok<D: Fn(&str) -> bool>(
    is_dir: D,
    current: Seq<char>,
    home: Seq<char>,
    folder: Seq<char>,
) -> bool {
    ||| probed(is_dir, current, true) && folder == current
    ||| probed(is_dir, current, false) && (parent(current) matches Some(p) && probed(is_dir, p, true)
        && folder == p)
    ||| probed(is_dir, current, false) && (parent(current) is None || (parent(current) matches Some(
        p,
    ) && probed(is_dir, p, false))) && folder == home
}

/// The file preselected when the chooser opens: the requested current file
/// when its parent is the folder and it exists.
pub open spec fn preselect_ok<E: Fn(&str) -> bool>(
    present: E,
    current_file: Option<Seq<char>>,
    folder: Seq<char>,
    selected: Seq<Seq<char>>,
) -> bool {
    match current_file {
        Some(f) => if parent(f) matches Some(q) && same_path(q, folder) {
            (probed(present, f, true) && selected == seq![f]) || (probed(present, f, false)
                && selected.len() == 0)
        } else {
            selected.len() == 0
        },
        None => selected.len() == 0,
    }
}

/// The paths of the entries of the given kind (directories or files).
pub open spec fn paths_of_kind(es: Seq<Entry>, dirs: bool) -> Seq<Seq<char>> {
    of_kind(es, dirs).map_values(|e: Entry| e.path@)
}

pub open spec fn entry_paths(es: Seq<Entry>) -> Seq<Seq<char>> {
    es.map_values(|e: Entry| e.path@)
}

/// The selection after a shift-click on `path`: the rows from the last
/// selected one (or `path` itself) to `path`, of the kind being chosen; just
/// `path` when that leaves nothing or `path` is not listed.
pub open spec fn range_selection(
    entries: Seq<Entry>,
    selected: Seq<Seq<char>>,
    path: Seq<char>,
    dirs: bool,
) -> Seq<Seq<char>> {
    match first_same(entry_paths(entries), path) {
        None => seq![path],
        Some(end) => {
            let start = if selected.len() > 0 {
                match first_same(entry_paths(entries), selected.last()) {
                    Some(st) => st,
                    None => end,
                }
            } else {
                end
            };
            let (a, b) = if start <= end {
                (start, end)
            } else {
                (end, start)
            };
            let picked = paths_of_kind(entries.subrange(a, b + 1), dirs);
            if picked.len() == 0 {
                seq![path]
            } else {
                picked
            }
        },
    }
}

/// The selection after a ctrl-click on `path`: the first same path removed,
/// or `path` added when it was not selected.
pub open spec fn toggled(selected: Seq<Seq<char>>, path: Seq<char>) -> Seq<Seq<char>> {
    match first_same(selected, path) {
        Some(i) => selected.remove(i),
        None => selected.push(path),
    }
}

/// No path is selected twice.
pub open spec fn distinct_paths(s: Seq<Seq<char>>) -> bool {
    forall|i: int, j: int| 0 <= i < j < s.len() ==> !same_path(#[trigger] s[i], #[trigger] s[j])
}

pub proof fn lemma_same_path_equiv(a: Seq<char>, b: Seq<char>, c: Seq<char>)
    ensures
        same_path(a, a),
        same_path(a, b) ==> same_path(b, a),
        same_path(a, b) && same_path(b, c) ==> same_path(a, c),
{
}

/// Ctrl-clicking a path selects it when it was not selected and deselects
/// it when it was; a selection without repeats keeps none.
pub proof fn law_toggle_flips(selected: Seq<Seq<char>>, path: Seq<char>)
    requires
        distinct_paths(selected),
    ensures
        holds_path(toggled(selected, path), path) == !holds_path(selected, path),
        distinct_paths(toggled(selected, path)),
{
    lemma_first_same(selected, path);
    let t = toggled(selected, path);
    match first_same(selected, path) {
        Some(i) => {
            assert(holds_path(selected, path));
            if holds_path(t, path) {
                let k = choose|k: int| 0 <= k < t.len() && same_path(#[trigger] t[k], path);
                if k < i {
                    assert(t[k] == selected[k]);
                } else {
                    assert(t[k] == selected[k + 1]);
                    assert(!same_path(selected[i], selected[k + 1]));
                }
            }
            assert forall|a: int, b: int| 0 <= a < b < t.len() implies !same_path(
                #[trigger] t[a],
                #[trigger] t[b],
            ) by {
                let a2 = if a < i {
                    a
                } else {
                    a + 1
                };
                let b2 = if b < i {
                    b
                } else {
                    b + 1
                };
                assert(t[a] == selected[a2]);
                assert(t[b] == selected[b2]);
            }
        },
        None => {
            assert(t[t.len() - 1] == path);
            assert(same_path(t[t.len() - 1], path));
            if holds_path(selected, path) {
                let k = choose|k: int| 0 <= k < selected.len() && same_path(#[trigger] selected[k], path);
                assert(!same_path(selected[k], path));
            }
            assert forall|a: int, b: int| 0 <= a < b < t.len() implies !same_path(
                #[trigger] t[a],
                #[trigger] t[b],
            ) by {
                if b == t.len() - 1 {
                    assert(t[a] == selected[a]);
                    assert(!same_path(selected[a], path));
                    if same_path(t[a], t[b]) {
                        lemma_same_path_equiv(t[a], t[b], path);
                    }
                } else {
                    assert(t[a] == selected[a]);
                    assert(t[b] == selected[b]);
                }
            }
        },
    }
}

/// The row for a recent file.
pub open spec fn recent_row(r: RecentFile) -> Entry {
    Entry {
        name: r.label,
        path: r.path,
        is_dir: r.is_dir,
        size: r.size,
        modified: if r.modified > 0 {
            Some((r.modified as u64, 0u32))
        } else {
            None
        },
    }
}

pub open spec fn shown_recent(rs: Seq<RecentFile>, show_hidden: bool, query: Seq<char>) -> Seq<Entry>
    decreases rs.len(),
{
    if rs.len() == 0 {
        Seq::empty()
    } else {
        let rest = shown_recent(rs.drop_last(), show_hidden, query);
        if name_shown(rs.last().label@, show_hidden, query) {
            rest.push(recent_row(rs.last()))
        } else {
            rest
        }
    }
}

/// The selected paths that stay when a folder is listed: those whose
/// parent is the folder.
pub open spec fn kept_in_folder(s: Seq<Seq<char>>, folder: Seq<char>) -> Seq<Seq<char>>
    decreases s.len(),
{
    if s.len() == 0 {
        Seq::empty()
    } else {
        let rest = kept_in_folder(s.drop_last(), folder);
        if parent(s.last()) matches Some(q) && same_path(q, folder) {
            rest.push(s.last())
        } else {
            rest
        }
    }
}

fn strings_clone(v: &Vec<String>) -> (out: Vec<String>)
    ensures
        strs(out@) == strs(v@),
{
    let mut out: Vec<String> = Vec::new();
    let mut i: usize = 0;
    while i < v.len()
        invariant
            i <= v.len(),
            strs(out@) == strs(v@.take(i as int)),
        decreases v.len() - i,
    {
        let ghost before = strs(out@);
        out.push(v[i].clone());
        proof {
            assert(strs(out@) =~= before.push(v@[i as int]@));
            assert(strs(v@.take(i + 1)) =~= strs(v@.take(i as int)).push(v@[i as int]@));
        }
        i += 1;
    }
    proof {
        assert(v@.take(v@.len() as int) =~= v@);
    }
    out
}

fn one_path(p: String) -> (out: Vec<String>)
    ensures
        strs(out@) == seq![p@],
{
    let mut v: Vec<String> = Vec::new();
    v.push(p);
    proof {
        assert(strs(v@) =~= seq![p@]);
    }
    v
}

/// Whether `path`'s parent is `folder`.
fn parent_is(path: &str, folder: &str) -> (out: bool)
    ensures
        out == (parent(path@) matches Some(q) && same_path(q, folder@)),
{
    match path_parent(path) {
        Some(q) => paths_equal(q.as_str(), folder),
        None => false,
    }
}

impl ChooserApp {
    /// A chooser for `req`, before its first listing. `is_dir` and `present`
    /// answer questions about paths.
    pub fn new<D: Fn(&str) -> bool, E: Fn(&str) -> bool>(
        req: FileChooserRequest,
        home: &str,
        is_dir: D,
        present: E,
    ) -> (out: ChooserApp)
        requires
            forall|s: &str| is_dir.requires((s,)),
            forall|s: &str| present.requires((s,)),
        ensures
            initial_folder_ok(is_dir, req.current_folder@, home@, out.folder@),
            preselect_ok(present, opt_view(req.current_file), out.folder@, strs(out.selected@)),
            out.req == req,
            out.filename == req.current_name,
            out.filter_index == match req.current_filter {
                Some(i) => Some(i),
                None => if req.filters.len() == 0 {
                    None
                } else {
                    Some(0usize)
                },
            },
            out.choice_values.len() == req.choices.len(),
            forall|i: int|
                0 <= i < out.choice_values.len() ==> #[trigger] out.choice_values@[i]@
                    == req.choices@[i].selected@,
            out.path_edit@ == out.folder@,
            out.entries.len() == 0,
            out.query@.len() == 0,
            out.last_query@.len() == 0,
            !out.show_hidden,
            out.error is None,
            out.new_folder is None,
            out.overwrite is None,
            out.outcome == Outcome::Pending,
            out.sort_key == SortKey::Name,
            !out.sort_reversed,
            !out.recent_mode,
            !out.editing_path,
            out.needs_refresh,
    {
        let cf = req.current_folder.as_str();
        let folder = if is_dir(cf) {
            cf.to_owned()
        } else {
            match path_parent(cf) {
                Some(p) => if is_dir(p.as_str()) {
                    p
                } else {
                    home.to_owned()
                },
                None => home.to_owned(),
            }
        };
        let filter_index = match req.current_filter {
            Some(i) => Some(i),
            None => if req.filters.len() == 0 {
                None
            } else {
                Some(0)
            },
        };
        let choice_values = crate::ui::confirm::selected_values(&req.choices);
        let selected = match &req.current_file {
            Some(f) => if parent_is(f.as_str(), folder.as_str()) && present(f.as_str()) {
                one_path(f.clone())
            } else {
                Vec::new()
            },
            None => Vec::new(),
        };
        let filename = req.current_name.clone();
        let path_edit = folder.clone();
        ChooserApp {
            req,
            folder,
            entries: Vec::new(),
            selected,
            filter_index,
            filename,
            query: String::new(),
            path_edit,
            show_hidden: false,
            error: None,
            new_folder: None,
            overwrite: None,
            choice_values,
            outcome: Outcome::Pending,
            sort_key: SortKey::Name,
            sort_reversed: false,
            recent_mode: false,
            editing_path: false,
            last_query: String::new(),
            needs_refresh: true,
        }
    }

    /// Sorts the entries by the current column.
    pub fn apply_sort(&mut self)
        ensures
            sorted_entries(final(self).entries@, old(self).entries@, old(self).sort_key, old(self).sort_reversed),
            *final(self) == (ChooserApp { entries: final(self).entries, ..*old(self) }),
    {
        let mut es: Vec<Entry> = Vec::new();
        std::mem::swap(&mut es, &mut self.entries);
        self.entries = sort_entries(es, self.sort_key, self.sort_reversed);
    }

    /// Sorts by `key`; choosing the current column again flips the order.
    pub fn set_sort(&mut self, key: SortKey)
        ensures
            final(self).sort_key == key,
            final(self).sort_reversed == if old(self).sort_key == key {
                !old(self).sort_reversed
            } else {
                false
            },
            sorted_entries(final(self).entries@, old(self).entries@, key, final(self).sort_reversed),
            *final(self) == (ChooserApp {
                entries: final(self).entries,
                sort_key: key,
                sort_reversed: final(self).sort_reversed,
                ..*old(self)
            }),
    {
        if self.sort_key == key {
            self.sort_reversed = !self.sort_reversed;
        } else {
            self.sort_key = key;
            self.sort_reversed = false;
        }
        self.apply_sort();
    }

    /// Shows the recent files.
    pub fn go_recent(&mut self)
        ensures
            final(self).selected.len() == 0,
            *final(self) == (ChooserApp {
                recent_mode: true,
                selected: final(self).selected,
                needs_refresh: true,
                ..*old(self)
            }),
    {
        self.recent_mode = true;
        self.selected = Vec::new();
        self.needs_refresh = true;
    }

    /// Shows the folder `path`.
    pub fn go_folder(&mut self, path: String)
        ensures
            final(self).selected.len() == 0,
            *final(self) == (ChooserApp {
                recent_mode: false,
                folder: path,
                selected: final(self).selected,
                needs_refresh: true,
                ..*old(self)
            }),
    {
        self.recent_mode = false;
        self.folder = path;
        self.selected = Vec::new();
        self.needs_refresh = true;
    }

    /// Fills the list from the recent files: rows whose names show, sorted.
    pub fn refresh_recent(&mut self, recent: Vec<RecentFile>)
        ensures
            sorted_entries(
                final(self).entries@,
                shown_recent(recent@, old(self).show_hidden, old(self).query@),
                old(self).sort_key,
                old(self).sort_reversed,
            ),
            final(self).path_edit@ == "recent:"@,
            *final(self) == (ChooserApp {
                entries: final(self).entries,
                path_edit: final(self).path_edit,
                error: None,
                needs_refresh: false,
                ..*old(self)
            }),
    {
        let mut rows: Vec<Entry> = Vec::new();
        let mut i: usize = 0;
        while i < recent.len()
            invariant
                i <= recent.len(),
                rows@ == shown_recent(recent@.take(i as int), self.show_hidden, self.query@),
            decreases recent.len() - i,
        {
            proof {
                assert(recent@.take(i + 1).drop_last() =~= recent@.take(i as int));
            }
            let r = &recent[i];
            if name_shown_exec(r.label.as_str(), self.show_hidden, self.query.as_str()) {
                let row = Entry {
                    name: r.label.clone(),
                    path: r.path.clone(),
                    is_dir: r.is_dir,
                    size: r.size,
                    modified: if r.modified > 0 {
                        Some((r.modified as u64, 0u32))
                    } else {
                        None
                    },
                };
                proof {
                    assert(row == recent_row(recent@[i as int]));
                }
                rows.push(row);
            }
            i += 1;
        }
        proof {
            assert(recent@.take(recent@.len() as int) =~= recent@);
        }
        self.error = None;
        self.entries = sort_entries(rows, self.sort_key, self.sort_reversed);
        self.path_edit = crate::paths::RECENT_PLACE.to_owned();
        self.needs_refresh = false;
    }

    /// Fills the list from the listing of the folder: the entries that
    /// show, sorted; the selection keeps only paths in the folder.
    pub fn refresh_listing(&mut self, listing: Vec<Entry>)
        ensures
            sorted_entries(
                final(self).entries@,
                shown_dir_entries(*old(self), listing@),
                old(self).sort_key,
                old(self).sort_reversed,
            ),
            final(self).path_edit@ == old(self).folder@,
            strs(final(self).selected@) == kept_in_folder(strs(old(self).selected@), old(self).folder@),
            *final(self) == (ChooserApp {
                entries: final(self).entries,
                path_edit: final(self).path_edit,
                selected: final(self).selected,
                error: None,
                needs_refresh: false,
                ..*old(self)
            }),
    {
        let ghost app = *self;
        let mut rows: Vec<Entry> = Vec::new();
        let mut i: usize = 0;
        while i < listing.len()
            invariant
                i <= listing.len(),
                app == *self,
                rows@ == shown_dir_entries(app, listing@.take(i as int)),
            decreases listing.len() - i,
        {
            proof {
                assert(listing@.take(i + 1).drop_last() =~= listing@.take(i as int));
            }
            if self.entry_shown(&listing[i]) {
                rows.push(clone_entry(&listing[i]));
            }
            i += 1;
        }
        proof {
            assert(listing@.take(listing@.len() as int) =~= listing@);
        }
        let ghost sv = strs(self.selected@);
        let mut kept: Vec<String> = Vec::new();
        let mut j: usize = 0;
        while j < self.selected.len()
            invariant
                j <= self.selected.len(),
                app == *self,
                sv == strs(self.selected@),
                strs(kept@) == kept_in_folder(sv.take(j as int), self.folder@),
            decreases self.selected.len() - j,
        {
            proof {
                assert(sv.take(j + 1).drop_last() =~= sv.take(j as int));
                assert(sv.take(j + 1).last() == self.selected@[j as int]@);
            }
            if parent_is(self.selected[j].as_str(), self.folder.as_str()) {
                let ghost before = strs(kept@);
                kept.push(self.selected[j].clone());
                proof {
                    assert(strs(kept@) =~= before.push(self.selected@[j as int]@));
                }
            }
            j += 1;
        }
        proof {
            assert(sv.take(sv.len() as int) =~= sv);
        }
        self.error = None;
        self.entries = sort_entries(rows, self.sort_key, self.sort_reversed);
        self.path_edit = self.folder.clone();
        self.selected = kept;
        self.needs_refresh = false;
    }

    /// Whether a listed entry shows.
    fn entry_shown(&self, e: &Entry) -> (out: bool)
        ensures
            out == dir_entry_shown(*self, *e),
    {
        if !name_shown_exec(e.name.as_str(), self.show_hidden, self.query.as_str()) {
            return false;
        }
        if e.is_dir {
            return true;
        }
        if self.req.directory && self.req.mode == FileMode::Open {
            return false;
        }
        match self.filter_index {
            Some(idx) => if idx < self.req.filters.len() {
                self.req.filters[idx].matches(e.path.as_str())
            } else {
                true
            },
            None => true,
        }
    }

    /// The folder could not be listed: the list is empty and shows `err`.
    pub fn refresh_failed(&mut self, err: String)
        ensures
            final(self).entries.len() == 0,
            *final(self) == (ChooserApp {
                entries: final(self).entries,
                error: Some(err),
                needs_refresh: false,
                ..*old(self)
            }),
    {
        self.error = Some(err);
        self.entries = Vec::new();
        self.needs_refresh = false;
    }

    /// Opens an entry: a directory is entered; a file is selected (and,
    /// when saving, gives its name), unless a folder is being chosen.
    pub fn enter(&mut self, path: String, is_dir: bool)
        ensures
            if is_dir {
                final(self).selected.len() == 0 && *final(self) == (ChooserApp {
                    recent_mode: false,
                    folder: path,
                    selected: final(self).selected,
                    needs_refresh: true,
                    ..*old(self)
                })
            } else if old(self).req.mode == FileMode::Save {
                strs(final(self).selected@) == seq![path@] && final(self).filename@ == match file_name(
                    path@,
                ) {
                    Some(n) => n,
                    None => old(self).filename@,
                } && *final(self) == (ChooserApp {
                    selected: final(self).selected,
                    filename: final(self).filename,
                    ..*old(self)
                })
            } else if !old(self).req.directory {
                strs(final(self).selected@) == seq![path@] && *final(self) == (ChooserApp {
                    selected: final(self).selected,
                    ..*old(self)
                })
            } else {
                *final(self) == *old(self)
            },
    {
        if is_dir {
            self.go_folder(path);
        } else if self.req.mode == FileMode::Save {
            match path_file_name(path.as_str()) {
                Some(n) => {
                    self.filename = n;
                },
                None => {},
            }
            self.selected = one_path(path);
        } else if !self.req.directory {
            self.selected = one_path(path);
        }
    }

    /// Ctrl-click: adds `path` to the selection or takes it out.
    pub fn toggle_select(&mut self, path: String)
        ensures
            strs(final(self).selected@) == toggled(strs(old(self).selected@), path@),
            *final(self) == (ChooserApp { selected: final(self).selected, ..*old(self) }),
    {
        let ghost sv = strs(self.selected@);
        proof {
            lemma_first_same(sv, path@);
        }
        let ps = path.as_str();
        let pos = position_of(&self.selected, ps);
        proof {
            assert(ps@ == path@);
            assert(sv.len() == self.selected.len());
            if let Some(j) = first_same(sv, path@) {
                assert(0 <= j < sv.len());
                assert(pos == Some(j as usize));
            }
        }
        match pos {
            Some(i) => {
                proof {
                    assert(first_same(sv, path@) == Some(i as int));
                }
                self.selected.remove(i);
                proof {
                    assert(strs(self.selected@) =~= sv.remove(i as int));
                }
            },
            None => {
                proof {
                    assert(first_same(sv, path@) is None);
                }
                self.selected.push(path);
                proof {
                    assert(strs(self.selected@) =~= sv.push(path@));
                }
            },
        }
    }

    /// Shift-click: selects the range from the last selected row to `path`.
    pub fn select_range(&mut self, path: String)
        ensures
            strs(final(self).selected@) == range_selection(
                old(self).entries@,
                strs(old(self).selected@),
                path@,
                old(self).req.directory,
            ),
            *final(self) == (ChooserApp { selected: final(self).selected, ..*old(self) }),
    {
        let paths = self.entry_path_list();
        let ghost ev = self.entries@;
        let ghost sv = strs(self.selected@);
        let end = match position_of(&paths, path.as_str()) {
            Some(e) => e,
            None => {
                self.selected = one_path(path);
                return;
            },
        };
        proof {
            lemma_first_same(strs(paths@), path@);
        }
        let start = if self.selected.len() > 0 {
            proof {
                assert(sv.last() == self.selected@[self.selected.len() - 1]@);
            }
            match position_of(&paths, self.selected[self.selected.len() - 1].as_str()) {
                Some(st) => {
                    proof {
                        lemma_first_same(strs(paths@), sv.last());
                    }
                    st
                },
                None => end,
            }
        } else {
            end
        };
        let (a, b) = if start <= end {
            (start, end)
        } else {
            (end, start)
        };
        let mut picked: Vec<String> = Vec::new();
        let mut k: usize = a;
        let ghost sub = ev.subrange(a as int, b + 1);
        while k <= b
            invariant
                a <= k <= b + 1,
                b < self.entries.len(),
                ev == self.entries@,
                sub == ev.subrange(a as int, b + 1),
                strs(picked@) == paths_of_kind(sub.take(k - a), self.req.directory),
            decreases b + 1 - k,
        {
            proof {
                assert(sub.take(k - a + 1).drop_last() =~= sub.take(k - a));
                assert(sub.take(k - a + 1).last() == ev[k as int]);
                assert(paths_of_kind(sub.take(k - a + 1), self.req.directory) =~= of_kind(
                    sub.take(k - a + 1),
                    self.req.directory,
                ).map_values(|e: Entry| e.path@));
            }
            if self.entries[k].is_dir == self.req.directory {
                let ghost before = strs(picked@);
                picked.push(self.entries[k].path.clone());
                proof {
                    assert(strs(picked@) =~= before.push(ev[k as int].path@));
                    assert(paths_of_kind(sub.take(k - a + 1), self.req.directory) =~= paths_of_kind(
                        sub.take(k - a),
                        self.req.directory,
                    ).push(ev[k as int].path@));
                }
            } else {
                proof {
                    assert(paths_of_kind(sub.take(k - a + 1), self.req.directory) =~= paths_of_kind(
                        sub.take(k - a),
                        self.req.directory,
                    ));
                }
            }
            k += 1;
        }
        proof {
            assert(sub.take(b + 1 - a) =~= sub);
        }
        if picked.len() == 0 {
            self.selected = one_path(path);
        } else {
            self.selected = picked;
        }
    }

    fn entry_path_list(&self) -> (out: Vec<String>)
        ensures
            strs(out@) == entry_paths(self.entries@),
    {
        let mut out: Vec<String> = Vec::new();
        let mut i: usize = 0;
        while i < self.entries.len()
            invariant
                i <= self.entries.len(),
                strs(out@) == entry_paths(self.entries@.take(i as int)),
            decreases self.entries.len() - i,
        {
            let ghost before = strs(out@);
            out.push(self.entries[i].path.clone());
            proof {
                assert(strs(out@) =~= before.push(self.entries@[i as int].path@));
                assert(entry_paths(self.entries@.take(i + 1)) =~= entry_paths(
                    self.entries@.take(i as int),
                ).push(self.entries@[i as int].path@));
            }
            i += 1;
        }
        proof {
            assert(self.entries@.take(self.entries@.len() as int) =~= self.entries@);
        }
        out
    }
}

// ---------------------------------------------------------------------------
// Accepting, and the rest of the chooser's actions
// ---------------------------------------------------------------------------
/// `new` is `old` with the error `msg` shown.
pub open spec fn shows_error(old: ChooserApp, new: ChooserApp, msg: Seq<char>) -> bool {
    new.error matches Some(e) && e@ == msg && new == (ChooserApp { error: new.error, ..old })
}

/// `new` is `old` accepted with the selection `sel`.
pub open spec fn accepted_with(old: ChooserApp, new: ChooserApp, sel: Seq<Seq<char>>) -> bool {
    strs(new.selected@) == sel && new == (ChooserApp {
        selected: new.selected,
        outcome: Outcome::Accept,
        ..old
    })
}

/// `new` is `old` showing the folder `path`.
pub open spec fn moved_to(old: ChooserApp, new: ChooserApp, path: Seq<char>) -> bool {
    new.folder@ == path && new.selected.len() == 0 && new == (ChooserApp {
        recent_mode: false,
        folder: new.folder,
        selected: new.selected,
        needs_refresh: true,
        ..old
    })
}

pub open spec fn openable<K: Fn(&str) -> PathKind>(kind: K, p: Seq<char>) -> bool {
    kinded(kind, p, PathKind::File) || kinded(kind, p, PathKind::Dir)
}

pub open spec fn not_openable<K: Fn(&str) -> PathKind>(kind: K, p: Seq<char>) -> bool {
    kinded(kind, p, PathKind::Missing) || kinded(kind, p, PathKind::Other)
}

pub open spec fn not_dir<K: Fn(&str) -> PathKind>(kind: K, p: Seq<char>) -> bool {
    kinded(kind, p, PathKind::Missing) || kinded(kind, p, PathKind::File) || kinded(
        kind,
        p,
        PathKind::Other,
    )
}

/// The names to save under in a save-files request: those requested, or
/// the typed name when none were and it is not empty.
pub open spec fn save_names_spec(app: ChooserApp) -> Seq<Seq<char>> {
    if app.req.save_names.len() == 0 {
        if app.filename@.len() > 0 {
            seq![app.filename@]
        } else {
            Seq::empty()
        }
    } else {
        strs(app.req.save_names@)
    }
}

/// Characters that make a glob's tail more than a plain extension.
pub open spec fn glob_meta(c: char) -> bool {
    c == '*' || c == '?' || c == '[' || c == ']' || c == '{' || c == '}' || c == '/'
}

/// The extension a glob `*.ext` stands for, when `ext` is plain text.
pub open spec fn glob_extension(g: Seq<char>) -> Option<Seq<char>> {
    if g.len() > 2 && g[0] == '*' && g[1] == '.' && (forall|i: int|
        2 <= i < g.len() ==> !glob_meta(#[trigger] g[i])) {
        Some(g.subrange(2, g.len() as int))
    } else {
        None
    }
}

/// The extension the current filter offers: that of its first pattern,
/// when that is a glob `*.ext`.
pub open spec fn current_filter_extension(app: ChooserApp) -> Option<Seq<char>> {
    match app.filter_index {
        Some(i) => if i < app.req.filters.len() {
            let ps = app.req.filters@[i as int].patterns_spec();
            if ps.len() > 0 {
                match ps[0] {
                    PatternSpec::Glob(g) => glob_extension(g),
                    PatternSpec::Mime(_) => None,
                }
            } else {
                None
            }
        } else {
            None
        },
        None => None,
    }
}

/// The name a single file is saved under: the typed name, trimmed, with the
/// current filter's extension added when the name has none.
pub open spec fn save_target_name(app: ChooserApp) -> Seq<char> {
    let name = trim(app.filename@);
    match current_filter_extension(app) {
        Some(e) => if dot_ext_of(name).len() == 0 {
            name + seq!['.'] + e
        } else {
            name
        },
        None => name,
    }
}

/// The extension of a glob `*.ext`, as [`glob_extension`] gives it.
fn glob_extension_exec(g: &str) -> (out: Option<String>)
    ensures
        opt_view(out) == glob_extension(g@),
{
    let v = chars_of(g);
    if v.len() <= 2 || v[0] != '*' || v[1] != '.' {
        return None;
    }
    let mut i: usize = 2;
    while i < v.len()
        invariant
            2 <= i <= v.len(),
            v@ == g@,
            v@.len() > 2,
            forall|k: int| 2 <= k < i ==> !glob_meta(#[trigger] v@[k]),
        decreases v.len() - i,
    {
        let c = v[i];
        if c == '*' || c == '?' || c == '[' || c == ']' || c == '{' || c == '}' || c == '/' {
            proof {
                assert(glob_meta(v@[i as int]));
            }
            return None;
        }
        i += 1;
    }
    Some(crate::text::string_of_range(&v, 2, v.len()))
}

impl ChooserApp {
    /// The extension the current filter offers, as
    /// [`current_filter_extension`] gives it.
    fn filter_extension(&self) -> (out: Option<String>)
        ensures
            opt_view(out) == current_filter_extension(*self),
    {
        match self.filter_index {
            Some(i) => {
                if i >= self.req.filters.len() {
                    return None;
                }
                let f = &self.req.filters[i];
                if f.patterns.len() == 0 {
                    return None;
                }
                proof {
                    assert(f.patterns_spec()[0] == f.patterns@[0]@);
                }
                match &f.patterns[0] {
                    FilterPattern::Glob(g) => glob_extension_exec(g.as_str()),
                    FilterPattern::Mime(_) => None,
                }
            },
            None => None,
        }
    }

    /// The name a single file is saved under, as [`save_target_name`] gives
    /// it.
    fn save_name(&self) -> (out: String)
        ensures
            out@ == save_target_name(*self),
    {
        let name = trim_str(self.filename.as_str());
        match self.filter_extension() {
            Some(e) => {
                let (_stem, ext) = stem_and_ext(name.as_str());
                if ext.as_str().is_empty() {
                    let a = crate::text::concat(name.as_str(), ".");
                    proof {
                        reveal_strlit(".");
                        assert(a@ == name@ + seq!['.']);
                    }
                    crate::text::concat(a.as_str(), e.as_str())
                } else {
                    name
                }
            },
            None => name,
        }
    }
}

/// What accepting does, by mode. Opening a folder accepts the first
/// selected path (or the folder shown) when it is a directory. Opening files
/// accepts a selection whose paths all exist as files or directories, except
/// that a single directory is entered instead. Saving completes a bare
/// name with the current filter's extension and asks before overwriting an
/// existing path. Saving several files needs the folder to be a directory
/// and picks for each name a free path that no earlier name was given.
pub open spec fn accept_spec<K: Fn(&str) -> PathKind, E: Fn(&str) -> bool>(
    kind: K,
    present: E,
    old: ChooserApp,
    new: ChooserApp,
) -> bool {
    let sel = strs(old.selected@);
    match old.req.mode {
        FileMode::Open => if old.req.directory {
            let path = if sel.len() > 0 {
                sel[0]
            } else {
                old.folder@
            };
            ||| kinded(kind, path, PathKind::Dir) && accepted_with(old, new, seq![path])
            ||| not_dir(kind, path) && new == old
        } else {
            ||| sel.len() == 0 && shows_error(old, new, "Select a file first"@)
            ||| exists|i: int|
                0 <= i < sel.len() && (forall|j: int| 0 <= j < i ==> #[trigger] openable(kind, sel[j]))
                    && #[trigger] not_openable(kind, sel[i]) && shows_error(
                    old,
                    new,
                    "Select a file first"@,
                )
            ||| sel.len() > 0 && (forall|j: int| 0 <= j < sel.len() ==> #[trigger] openable(kind, sel[j]))
                && ((!old.req.multiple && kinded(kind, sel[0], PathKind::Dir) && moved_to(
                old,
                new,
                sel[0],
            )) || ((old.req.multiple || kinded(kind, sel[0], PathKind::File)) && accepted_with(
                old,
                new,
                sel,
            )))
        },
        FileMode::Save => {
            let name = trim(old.filename@);
            if name.len() == 0 {
                shows_error(old, new, "Enter a file name"@)
            } else {
                let path = join_path(old.folder@, save_target_name(old));
                ||| probed(present, path, true) && (new.overwrite matches Some(o) && o@ == path)
                    && new == (ChooserApp { overwrite: new.overwrite, ..old })
                ||| probed(present, path, false) && accepted_with(old, new, seq![path])
            }
        },
        FileMode::SaveFiles => {
            let names = save_names_spec(old);
            ||| not_dir(kind, old.folder@) && shows_error(old, new, "Select a folder"@)
            ||| kinded(kind, old.folder@, PathKind::Dir) && new.selected.len() == names.len()
                && (forall|i: int|
                0 <= i < names.len() ==> #[trigger] unique_choice_avoiding(
                    present,
                    old.folder@,
                    names[i],
                    strs(new.selected@).take(i),
                    new.selected@[i]@,
                )) && new == (ChooserApp {
                selected: new.selected,
                outcome: Outcome::Accept,
                ..old
            })
        },
    }
}

/// The selection after a plain, shift- or ctrl-click on a file.
pub open spec fn click_selection(
    old: ChooserApp,
    path: Seq<char>,
    shift: bool,
    command: bool,
) -> Seq<Seq<char>> {
    if old.req.multiple && shift {
        range_selection(old.entries@, strs(old.selected@), path, old.req.directory)
    } else if old.req.multiple && command {
        toggled(strs(old.selected@), path)
    } else {
        seq![path]
    }
}

/// Whether a call of `create` on `p` may have answered `r` (`Some` holds
/// the error).
pub open spec fn create_said<C: Fn(&str) -> Option<String>>(
    create: C,
    p: Seq<char>,
    r: Option<Seq<char>>,
) -> bool {
    exists|s: &str, x: Option<String>| s@ == p && #[trigger] create.ensures((s,), x) && opt_view(x) == r
}

fn error_text(msg: &str) -> (out: Option<String>)
    ensures
        out matches Some(e) && e@ == msg@,
{
    Some(msg.to_owned())
}

impl ChooserApp {
    /// Accepts the dialog as [`accept_spec`] says. `kind` tells what a path
    /// is; `present` whether it exists.
    pub fn try_accept<K: Fn(&str) -> PathKind, E: Fn(&str) -> bool + Copy>(&mut self, kind: K, present: E)
        requires
            forall|s: &str| kind.requires((s,)),
            forall|s: &str| present.requires((s,)),
        ensures
            accept_spec(kind, present, *old(self), *final(self)),
    {
        let ghost start = *self;
        let ghost sel = strs(self.selected@);
        match self.req.mode {
            FileMode::Open => {
                if self.req.directory {
                    let path = if self.selected.len() > 0 {
                        self.selected[0].clone()
                    } else {
                        self.folder.clone()
                    };
                    let k = kind(path.as_str());
                    proof {
                        assert(kinded(kind, path@, k));
                    }
                    if k == PathKind::Dir {
                        self.selected = one_path(path);
                        self.outcome = Outcome::Accept;
                    }
                } else {
                    if self.selected.len() == 0 {
                        self.error = error_text("Select a file first");
                        return;
                    }
                    let mut i: usize = 0;
                    let mut first_kind = PathKind::Missing;
                    while i < self.selected.len()
                        invariant
                            i <= self.selected.len(),
                            *self == start,
                            start == *old(self),
                            start.req.mode == FileMode::Open,
                            !start.req.directory,
                            sel == strs(self.selected@),
                            self.selected.len() > 0,
                            forall|s: &str| kind.requires((s,)),
                            forall|j: int| 0 <= j < i ==> #[trigger] openable(kind, sel[j]),
                            i > 0 ==> kinded(kind, sel[0], first_kind) && (first_kind
                                == PathKind::File || first_kind == PathKind::Dir),
                        decreases self.selected.len() - i,
                    {
                        let k = kind(self.selected[i].as_str());
                        proof {
                            assert(kinded(kind, sel[i as int], k));
                        }
                        if k != PathKind::File && k != PathKind::Dir {
                            proof {
                                assert(not_openable(kind, sel[i as int]));
                            }
                            self.error = error_text("Select a file first");
                            proof {
                                let ii = i as int;
                                assert(shows_error(start, *self, "Select a file first"@));
                                assert(0 <= ii < sel.len() && (forall|j: int|
                                    0 <= j < ii ==> #[trigger] openable(kind, sel[j]))
                                    && not_openable(kind, sel[ii]) && shows_error(
                                    start,
                                    *self,
                                    "Select a file first"@,
                                ));
                                assert(accept_spec(kind, present, start, *self));
                            }
                            return;
                        }
                        if i == 0 {
                            first_kind = k;
                        }
                        i += 1;
                    }
                    if !self.req.multiple && first_kind == PathKind::Dir {
                        let p = self.selected[0].clone();
                        self.go_folder(p);
                        return;
                    }
                    self.outcome = Outcome::Accept;
                }
            },
            FileMode::Save => {
                let name = trim_str(self.filename.as_str());
                if name.as_str().is_empty() {
                    self.error = error_text("Enter a file name");
                    return;
                }
                let target = self.save_name();
                let path = path_join(self.folder.as_str(), target.as_str());
                if present(path.as_str()) {
                    self.overwrite = Some(path);
                    return;
                }
                self.selected = one_path(path);
                self.outcome = Outcome::Accept;
            },
            FileMode::SaveFiles => {
                let fk = kind(self.folder.as_str());
                proof {
                    assert(kinded(kind, self.folder@, fk));
                }
                if fk != PathKind::Dir {
                    self.error = error_text("Select a folder");
                    return;
                }
                let names: Vec<String> = if self.req.save_names.len() == 0 {
                    if self.filename.as_str().is_empty() {
                        Vec::new()
                    } else {
                        one_path(self.filename.clone())
                    }
                } else {
                    strings_clone(&self.req.save_names)
                };
                let ghost nv = strs(names@);
                proof {
                    assert(nv == save_names_spec(start));
                }
                let mut picked: Vec<String> = Vec::new();
                let mut i: usize = 0;
                while i < names.len()
                    invariant
                        i <= names.len(),
                        *self == start,
                        start.req.mode == FileMode::SaveFiles,
                        nv == strs(names@),
                        forall|s: &str| present.requires((s,)),
                        picked.len() == i,
                        forall|j: int|
                            0 <= j < i ==> #[trigger] unique_choice_avoiding(
                                present,
                                self.folder@,
                                nv[j],
                                strs(picked@).take(j),
                                picked@[j]@,
                            ),
                    decreases names.len() - i,
                {
                    let u = unique_path_avoiding(self.folder.as_str(), names[i].as_str(), present, &picked);
                    let ghost before = picked@;
                    proof {
                        assert(nv[i as int] == names@[i as int]@);
                        assert(strs(picked@) == picked@.map_values(|s: String| s@));
                    }
                    picked.push(u);
                    proof {
                        assert(strs(picked@).take(i as int) =~= strs(before));
                        assert(picked@[i as int] == u);
                        assert forall|j: int| 0 <= j < i + 1 implies #[trigger] unique_choice_avoiding(
                            present,
                            self.folder@,
                            nv[j],
                            strs(picked@).take(j),
                            picked@[j]@,
                        ) by {
                            if j < i {
                                assert(strs(picked@).take(j) =~= strs(before).take(j));
                                assert(picked@[j] == before[j]);
                            }
                        }
                    }
                    i += 1;
                }
                self.selected = picked;
                self.outcome = Outcome::Accept;
            },
        }
    }

    /// Confirms overwriting the path asked about: it becomes the selection
    /// and the dialog is accepted.
    pub fn confirm_overwrite(&mut self)
        ensures
            match old(self).overwrite {
                Some(p) => final(self).overwrite is None && accepted_with(
                    ChooserApp { overwrite: None, ..*old(self) },
                    *final(self),
                    seq![p@],
                ),
                None => *final(self) == *old(self),
            },
    {
        let taken = self.overwrite.take();
        match taken {
            Some(p) => {
                self.selected = one_path(p);
                self.outcome = Outcome::Accept;
            },
            None => {},
        }
    }

    /// A click on a row. A directory is entered; a double click selects the
    /// file and returns `true`, asking the caller to accept; otherwise the
    /// selection follows [`click_selection`], and when saving the clicked
    /// file's name becomes the name typed.
    pub fn on_list_click(&mut self, path: String, is_dir: bool, double: bool, shift: bool, command: bool) -> (accept_now: bool)
        ensures
            accept_now == (!is_dir && double),
            is_dir ==> moved_to(*old(self), *final(self), path@),
            !is_dir && double ==> strs(final(self).selected@) == seq![path@] && *final(self) == (
            ChooserApp { selected: final(self).selected, ..*old(self) }),
            !is_dir && !double ==> strs(final(self).selected@) == click_selection(
                *old(self),
                path@,
                shift,
                command,
            ) && final(self).filename@ == (if old(self).req.mode == FileMode::Save {
                match file_name(path@) {
                    Some(n) => n,
                    None => old(self).filename@,
                }
            } else {
                old(self).filename@
            }) && *final(self) == (ChooserApp {
                selected: final(self).selected,
                filename: final(self).filename,
                ..*old(self)
            }),
    {
        if is_dir {
            self.go_folder(path);
            return false;
        }
        if double {
            self.selected = one_path(path);
            return true;
        }
        let name = path_file_name(path.as_str());
        if self.req.multiple && shift {
            self.select_range(path);
        } else if self.req.multiple && command {
            self.toggle_select(path);
        } else {
            self.selected = one_path(path);
        }
        if self.req.mode == FileMode::Save {
            match name {
                Some(n) => {
                    self.filename = n;
                },
                None => {},
            }
        }
        false
    }

    /// Goes up: from the recent files to the home directory, else to the
    /// folder's parent, if it has one.
    pub fn parent(&mut self, home: &str)
        ensures
            if old(self).recent_mode {
                moved_to(*old(self), *final(self), home@)
            } else {
                match parent(old(self).folder@) {
                    Some(p) => moved_to(*old(self), *final(self), p),
                    None => *final(self) == *old(self),
                }
            },
    {
        if self.recent_mode {
            self.go_folder(home.to_owned());
            return;
        }
        match path_parent(self.folder.as_str()) {
            Some(p) => self.go_folder(p),
            None => {},
        }
    }

    /// Creates the folder named in the "new folder" field, in the folder
    /// shown, and enters it; `create` makes a directory and gives the error
    /// when it cannot.
    pub fn create_folder<C: Fn(&str) -> Option<String>>(&mut self, create: C)
        requires
            forall|s: &str| create.requires((s,)),
        ensures
            final(self).new_folder is None,
            ({
                let cleared = ChooserApp { new_folder: None, ..*old(self) };
                match old(self).new_folder {
                    None => *final(self) == cleared,
                    Some(n) => if trim(n@).len() == 0 {
                        *final(self) == cleared
                    } else {
                        let path = join_path(old(self).folder@, trim(n@));
                        ||| create_said(create, path, None) && moved_to(cleared, *final(self), path)
                        ||| exists|e: Seq<char>|
                            create_said(create, path, Some(e)) && #[trigger] shows_error(
                                cleared,
                                *final(self),
                                e,
                            )
                    },
                }
            }),
    {
        let taken = self.new_folder.take();
        let ghost cleared = *self;
        let n = match taken {
            Some(n) => n,
            None => return,
        };
        let name = trim_str(n.as_str());
        if name.as_str().is_empty() {
            return;
        }
        let path = path_join(self.folder.as_str(), name.as_str());
        let r = create(path.as_str());
        proof {
            assert(create_said(create, path@, opt_view(r)));
        }
        match r {
            Some(e) => {
                let ghost ev = e@;
                self.error = Some(e);
                proof {
                    assert(shows_error(cleared, *self, ev));
                }
            },
            None => self.go_folder(path),
        }
    }

    /// What the dialog hands back: the selected paths, each choice's value,
    /// and the filter in use.
    pub fn build_result(&self) -> (out: FileChooserResult)
        ensures
            strs(out.paths@) == strs(self.selected@),
            out.choices.len() == if self.req.choices.len() < self.choice_values.len() {
                self.req.choices.len()
            } else {
                self.choice_values.len()
            },
            forall|i: int|
                0 <= i < out.choices.len() ==> (#[trigger] out.choices@[i]).0@
                    == self.req.choices@[i].id@ && out.choices@[i].1@ == self.choice_values@[i]@,
            match self.filter_index {
                Some(i) => if i < self.req.filters.len() {
                    out.current_filter matches Some(f) && f.0@ == self.req.filters@[i as int].label@
                        && crate::filters::portal_pairs_view(f.1@)
                        == self.req.filters@[i as int].patterns_spec().map_values(
                        |p: crate::filters::PatternSpec| crate::filters::pair_of_pattern(p),
                    )
                } else {
                    out.current_filter is None
                },
                None => out.current_filter is None,
            },
    {
        let current_filter = match self.filter_index {
            Some(i) => if i < self.req.filters.len() {
                Some(self.req.filters[i].to_portal())
            } else {
                None
            },
            None => None,
        };
        FileChooserResult {
            paths: strings_clone(&self.selected),
            choices: crate::ui::confirm::zip_choices(&self.req.choices, &self.choice_values),
            current_filter,
        }
    }
}

/// Leaves path editing: `recent:` shows the recent files, a directory is
/// entered, anything else puts the folder's path back in the field.
pub fn commit_path_edit<D: Fn(&str) -> bool>(app: &mut ChooserApp, is_dir: D)
    requires
        forall|s: &str| is_dir.requires((s,)),
    ensures
        ({
            let raw = trim(old(app).path_edit@);
            let stopped = ChooserApp { editing_path: false, ..*old(app) };
            if raw == "recent:"@ {
                final(app).selected.len() == 0 && *final(app) == (ChooserApp {
                    recent_mode: true,
                    selected: final(app).selected,
                    needs_refresh: true,
                    ..stopped
                })
            } else {
                ||| probed(is_dir, raw, true) && moved_to(stopped, *final(app), raw)
                ||| probed(is_dir, raw, false) && final(app).path_edit@ == old(app).folder@
                    && *final(app) == (ChooserApp { path_edit: final(app).path_edit, ..stopped })
            }
        }),
{
    app.editing_path = false;
    let raw = trim_str(app.path_edit.as_str());
    if str_eq(raw.as_str(), crate::paths::RECENT_PLACE) {
        app.go_recent();
        return;
    }
    if is_dir(raw.as_str()) {
        app.go_folder(raw);
    } else {
        app.path_edit = app.folder.clone();
    }
}

// ---------------------------------------------------------------------------
// Keyboard and search
// ---------------------------------------------------------------------------
impl ChooserApp {
    /// Escape: closes the overwrite question, else the new-folder field,
    /// else (when not editing the path) cancels the dialog.
    pub fn on_escape(&mut self)
        ensures
            if old(self).overwrite is Some {
                *final(self) == (ChooserApp { overwrite: None, ..*old(self) })
            } else if old(self).new_folder is Some {
                *final(self) == (ChooserApp { new_folder: None, ..*old(self) })
            } else if !old(self).editing_path {
                *final(self) == (ChooserApp { outcome: Outcome::Cancel, ..*old(self) })
            } else {
                *final(self) == *old(self)
            },
    {
        if self.overwrite.is_some() {
            self.overwrite = None;
        } else if self.new_folder.is_some() {
            self.new_folder = None;
        } else if !self.editing_path {
            self.outcome = Outcome::Cancel;
        }
    }

    /// Notes a change of the search text: the list must be filled again.
    pub fn note_query(&mut self)
        ensures
            if old(self).query@ != old(self).last_query@ {
                final(self).last_query@ == old(self).query@ && *final(self) == (ChooserApp {
                    last_query: final(self).last_query,
                    needs_refresh: true,
                    ..*old(self)
                })
            } else {
                *final(self) == *old(self)
            },
    {
        if !str_eq(self.query.as_str(), self.last_query.as_str()) {
            self.last_query = self.query.clone();
            self.needs_refresh = true;
        }
    }

    /// Picks the filter at `index`; the list must be filled again.
    pub fn choose_filter(&mut self, index: usize)
        ensures
            *final(self) == (ChooserApp {
                filter_index: Some(index),
                needs_refresh: true,
                ..*old(self)
            }),
    {
        self.filter_index = Some(index);
        self.needs_refresh = true;
    }
}

// ---------------------------------------------------------------------------
// Breadcrumbs and headings
// ---------------------------------------------------------------------------
/// The `j`th path of a folder's chain: the folder itself, then the paths
/// with one, two, ... components fewer.
pub open spec fn crumb_path(folder: Seq<char>, j: int) -> Seq<char> {
    if j == 0 {
        folder
    } else {
        render(is_abs(folder), comps(folder).take(comps(folder).len() - j))
    }
}

/// The label of a crumb: `Home` for the home directory, `Computer` for
/// `/`, else the file name (or the whole path when there is none).
pub open spec fn crumb_label(p: Seq<char>, home: Seq<char>) -> Seq<char> {
    if same_path(p, home) {
        "Home"@
    } else if p == "/"@ {
        "Computer"@
    } else {
        match file_name(p) {
            Some(n) => n,
            None => p,
        }
    }
}

/// Where the chain stops: at the home directory, or at the last path.
pub open spec fn chain_stop(folder: Seq<char>, home: Seq<char>, j: int) -> int
    decreases comps(folder).len() - j,
{
    if j >= comps(folder).len() || same_path(crumb_path(folder, j), home) {
        j
    } else {
        chain_stop(folder, home, j + 1)
    }
}

/// The chain from the outermost crumb to the folder, as `(label, path)`.
pub open spec fn crumb_chain(folder: Seq<char>, home: Seq<char>) -> Seq<(Seq<char>, Seq<char>)> {
    let stop = chain_stop(folder, home, 0);
    Seq::new(
        (stop + 1) as nat,
        |k: int| (crumb_label(crumb_path(folder, stop - k), home), crumb_path(folder, stop - k)),
    )
}

/// The crumbs at or below the home directory.
pub open spec fn under_home(c: Seq<(Seq<char>, Seq<char>)>, home: Seq<char>) -> Seq<
    (Seq<char>, Seq<char>),
>
    decreases c.len(),
{
    if c.len() == 0 {
        Seq::empty()
    } else {
        let rest = under_home(c.drop_last(), home);
        if same_path(c.last().1, home) || path_starts_with(c.last().1, home) {
            rest.push(c.last())
        } else {
            rest
        }
    }
}

/// The breadcrumbs of a folder: its chain of ancestors up to the home
/// directory (or the root), outermost first; when the home directory is
/// among them, only crumbs at or below it stay.
pub open spec fn breadcrumbs_spec(folder: Seq<char>, home: Seq<char>) -> Seq<(Seq<char>, Seq<char>)> {
    let c = crumb_chain(folder, home);
    if exists|i: int| 0 <= i < c.len() && #[trigger] same_path(c[i].1, home) {
        under_home(c, home)
    } else {
        c
    }
}

pub proof fn lemma_chain_stop(folder: Seq<char>, home: Seq<char>, j: int)
    requires
        0 <= j <= comps(folder).len(),
    ensures
        j <= chain_stop(folder, home, j) <= comps(folder).len(),
        forall|k: int| j <= k < chain_stop(folder, home, j) ==> !same_path(#[trigger] crumb_path(folder, k), home),
        chain_stop(folder, home, j) < comps(folder).len() ==> same_path(
            crumb_path(folder, chain_stop(folder, home, j)),
            home,
        ),
    decreases comps(folder).len() - j,
{
    if j < comps(folder).len() && !same_path(crumb_path(folder, j), home) {
        lemma_chain_stop(folder, home, j + 1);
    }
}

fn crumb_label_exec(p: &str, home: &str) -> (out: String)
    ensures
        out@ == crumb_label(p@, home@),
{
    if paths_equal(p, home) {
        "Home".to_owned()
    } else if str_eq(p, "/") {
        "Computer".to_owned()
    } else {
        match path_file_name(p) {
            Some(n) => n,
            None => p.to_owned(),
        }
    }
}

/// The breadcrumbs of `folder`, as [`breadcrumbs_spec`] says.
#[verifier::rlimit(30)]
pub fn breadcrumbs(folder: &str, home: &str) -> (out: Vec<(String, String)>)
    ensures
        crate::paths::pair_view(out@) == breadcrumbs_spec(folder@, home@),
{
    let cs = components(folder);
    let ghost cv = strs(cs@);
    let abs = is_absolute(folder);
    let n = cs.len();
    proof {
        assert(cv.len() == n);
        lemma_chain_stop(folder@, home@, 0);
    }
    // The chain from the folder outwards.
    let mut fwd: Vec<(String, String)> = Vec::new();
    let mut taken = strings_clone(&cs);
    let mut j: usize = 0;
    let mut cur = folder.to_owned();
    loop
        invariant_except_break
            j <= n,
            cv == comps(folder@),
            n == cv.len(),
            abs == is_abs(folder@),
            strs(taken@) == cv.take(n - j),
            cur@ == crumb_path(folder@, j as int),
            fwd.len() == j,
            forall|k: int|
                0 <= k < j ==> (#[trigger] fwd@[k]).1@ == crumb_path(folder@, k) && fwd@[k].0@
                    == crumb_label(crumb_path(folder@, k), home@),
            chain_stop(folder@, home@, 0) == chain_stop(folder@, home@, j as int),
        ensures
            fwd.len() == j + 1,
            forall|k: int|
                0 <= k <= j ==> (#[trigger] fwd@[k]).1@ == crumb_path(folder@, k) && fwd@[k].0@
                    == crumb_label(crumb_path(folder@, k), home@),
            j as int == chain_stop(folder@, home@, 0),
        decreases n - j,
    {
        let label = crumb_label_exec(cur.as_str(), home);
        let at_home = paths_equal(cur.as_str(), home);
        fwd.push((label, cur.clone()));
        if at_home || j == n {
            proof {
                assert(chain_stop(folder@, home@, j as int) == j as int);
            }
            break;
        }
        proof {
            assert(chain_stop(folder@, home@, j as int) == chain_stop(folder@, home@, j + 1));
        }
        let ghost tv = strs(taken@);
        taken.pop();
        proof {
            assert(strs(taken@) =~= tv.drop_last());
            assert(tv.drop_last() =~= cv.take(n - j - 1));
        }
        cur = render_exec(abs, &taken);
        j += 1;
        proof {
            assert(cur@ == crumb_path(folder@, j as int));
        }
    }
    let stop = j;
    proof {
        assert(stop as int == chain_stop(folder@, home@, 0));
    }
    let ghost chain = crumb_chain(folder@, home@);
    let mut rev: Vec<(String, String)> = Vec::new();
    let mut k: usize = 0;
    while k <= stop
        invariant
            k <= stop + 1,
            stop as int == chain_stop(folder@, home@, 0),
            fwd.len() == stop + 1,
            chain == crumb_chain(folder@, home@),
            forall|m: int|
                0 <= m <= stop ==> (#[trigger] fwd@[m]).1@ == crumb_path(folder@, m) && fwd@[m].0@
                    == crumb_label(crumb_path(folder@, m), home@),
            crate::paths::pair_view(rev@) == chain.take(k as int),
        decreases stop + 1 - k,
    {
        let ghost before = crate::paths::pair_view(rev@);
        let e = (fwd[stop - k].0.clone(), fwd[stop - k].1.clone());
        rev.push(e);
        proof {
            assert(crate::paths::pair_view(rev@) =~= before.push(chain[k as int]));
            assert(chain.take(k + 1) =~= chain.take(k as int).push(chain[k as int]));
        }
        k += 1;
    }
    proof {
        assert(chain.take(chain.len() as int) =~= chain);
    }
    let ghost rv = crate::paths::pair_view(rev@);
    let mut any_home = false;
    let mut i: usize = 0;
    while i < rev.len()
        invariant
            i <= rev.len(),
            rv == crate::paths::pair_view(rev@),
            any_home == exists|m: int| 0 <= m < i && #[trigger] same_path(rv[m].1, home@),
        decreases rev.len() - i,
    {
        proof {
            assert(rv[i as int].1 == rev@[i as int].1@);
        }
        if paths_equal(rev[i].1.as_str(), home) {
            any_home = true;
        }
        i += 1;
    }
    if !any_home {
        return rev;
    }
    let mut out: Vec<(String, String)> = Vec::new();
    let mut m: usize = 0;
    while m < rev.len()
        invariant
            m <= rev.len(),
            rv == crate::paths::pair_view(rev@),
            crate::paths::pair_view(out@) == under_home(rv.take(m as int), home@),
        decreases rev.len() - m,
    {
        proof {
            assert(rv.take(m + 1).drop_last() =~= rv.take(m as int));
            assert(rv.take(m + 1).last() == rv[m as int]);
            assert(rv[m as int].1 == rev@[m as int].1@);
            assert(rv[m as int].0 == rev@[m as int].0@);
        }
        let p = rev[m].1.as_str();
        if paths_equal(p, home) || path_starts_with_exec(p, home) {
            let ghost before = crate::paths::pair_view(out@);
            out.push((rev[m].0.clone(), rev[m].1.clone()));
            proof {
                assert(crate::paths::pair_view(out@) =~= before.push(rv[m as int]));
            }
        }
        m += 1;
    }
    proof {
        assert(rv.take(rv.len() as int) =~= rv);
    }
    out
}

/// The crumbs shown: all of them when there are at most three, else the
/// first, an ellipsis (marked `true`) and the last.
pub fn collapse_crumbs(crumbs: &Vec<(String, String)>) -> (out: Vec<(String, String, bool)>)
    ensures
        crumbs.len() <= 3 ==> out.len() == crumbs.len() && forall|i: int|
            0 <= i < out.len() ==> (#[trigger] out@[i]).0@ == crumbs@[i].0@ && out@[i].1@
                == crumbs@[i].1@ && !out@[i].2,
        crumbs.len() > 3 ==> out.len() == 3 && out@[0].0@ == crumbs@[0].0@ && out@[0].1@
            == crumbs@[0].1@ && !out@[0].2 && out@[1].0@ == "…"@ && out@[1].1@.len() == 0
            && out@[1].2 && out@[2].0@ == crumbs@[crumbs.len() - 1].0@ && out@[2].1@
            == crumbs@[crumbs.len() - 1].1@ && !out@[2].2,
{
    let mut out: Vec<(String, String, bool)> = Vec::new();
    if crumbs.len() <= 3 {
        let mut i: usize = 0;
        while i < crumbs.len()
            invariant
                i <= crumbs.len(),
                crumbs.len() <= 3,
                out.len() == i,
                forall|k: int|
                    0 <= k < i ==> (#[trigger] out@[k]).0@ == crumbs@[k].0@ && out@[k].1@
                        == crumbs@[k].1@ && !out@[k].2,
            decreases crumbs.len() - i,
        {
            out.push((crumbs[i].0.clone(), crumbs[i].1.clone(), false));
            i += 1;
        }
        return out;
    }
    let last = crumbs.len() - 1;
    out.push((crumbs[0].0.clone(), crumbs[0].1.clone(), false));
    out.push(("…".to_owned(), String::new(), true));
    out.push((crumbs[last].0.clone(), crumbs[last].1.clone(), false));
    out
}

/// A crumb's label shortened to 19 characters and an ellipsis when it has
/// more than 22.
pub fn truncate_crumb(label: &str) -> (out: String)
    ensures
        label@.len() <= 22 ==> out@ == label@,
        label@.len() > 22 ==> out@ == label@.take(19) + "…"@,
{
    let v = chars_of(label);
    if v.len() <= 22 {
        return label.to_owned();
    }
    let head = crate::text::string_of_range(&v, 0, 19);
    proof {
        assert(v@.subrange(0, 19) =~= label@.take(19));
    }
    crate::text::concat(head.as_str(), "…")
}

/// A column heading: the label, with an arrow for the sorted column.
pub fn sort_heading(label: &str, active: bool, reversed: bool) -> (out: String)
    ensures
        out@ == if !active {
            label@
        } else if reversed {
            label@ + " ↓"@
        } else {
            label@ + " ↑"@
        },
{
    if !active {
        return label.to_owned();
    }
    if reversed {
        crate::text::concat(label, " ↓")
    } else {
        crate::text::concat(label, " ↑")
    }
}

} // verus!
