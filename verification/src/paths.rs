//! Well-known places: the Omarchy theme files, XDG user directories, the
//! file-chooser sidebar, recent files, the account picture and login names.
//!
//! The caller reads the environment and the files named here and answers
//! questions about paths (does it exist, is it a file); everything decided
//! from those answers stands here.
use crate::fspath::{
    ext_dot_exec, file_name, join_path, name_extension, name_stem, path_file_name, path_join,
    paths_equal, same_path,
};
use crate::filters::code_key;
use crate::order::{is_sorting, sort_by_keys, sorted_by_keys};
use crate::text::{
    char_key, find, find_at, find_from, first_index, index_of_from, lemma_find_from_bounds,
    lemma_first_index_bounds, lemma_first_index_is, starts_with, split_once, split_once_char, str_eq, chars_of, concat, decimal, decimal_string, has_prefix, lines, lines_of, parse_u64_radix,
    parse_unsigned, replace_all, replace_str, split_all, string_of_range, strip_prefix, trim,
    trim_char, trim_char_str, trim_str,
};
use crate::uri::{file_uri_path, path_from_file_uri};
use vstd::prelude::*;

verus! {

// ---------------------------------------------------------------------------
// Base directories
// ---------------------------------------------------------------------------
/// The directory of the current Omarchy theme under the XDG state home.
pub fn current_theme_dir(state_home: &str) -> (out: String)
    ensures
        out@ == join_path(state_home@, "omarchy/current/theme"@),
{
    path_join(state_home, "omarchy/current/theme")
}

/// The file naming the current Omarchy theme under the XDG state home.
pub fn current_theme_name_file(state_home: &str) -> (out: String)
    ensures
        out@ == join_path(state_home@, "omarchy/current/theme.name"@),
{
    path_join(state_home, "omarchy/current/theme.name")
}

/// The XDG state home: `$XDG_STATE_HOME` when it is set, else
/// `~/.local/state`.
pub fn state_home(xdg_state_home: Option<&str>, home: &str) -> (out: String)
    ensures
        out@ == match xdg_state_home {
            Some(s) => s@,
            None => join_path(home@, ".local/state"@),
        },
{
    match xdg_state_home {
        Some(s) => s.to_owned(),
        None => path_join(home, ".local/state"),
    }
}

// ---------------------------------------------------------------------------
// XDG user directories (`user-dirs.dirs`)
// ---------------------------------------------------------------------------
pub open spec fn user_dir_prefix(key: Seq<char>) -> Seq<char> {
    "XDG_"@ + key + "_DIR="@
}

/// The text after `prefix` on the first line that, trimmed, starts with it.
pub open spec fn entry_after(ls: Seq<Seq<char>>, prefix: Seq<char>) -> Option<Seq<char>>
    decreases ls.len(),
{
    if ls.len() == 0 {
        None
    } else if has_prefix(trim(ls[0]), prefix) {
        Some(trim(ls[0]).subrange(prefix.len() as int, trim(ls[0]).len() as int))
    } else {
        entry_after(ls.drop_first(), prefix)
    }
}

/// The XDG user directory `key` (such as `DOWNLOAD`): the value of its line
/// in `user-dirs.dirs` (when the file could be read), without quotes and with
/// `$HOME` expanded; otherwise `fallback` under the home directory.
pub open spec fn user_dir_spec(
    dirs_text: Option<Seq<char>>,
    key: Seq<char>,
    fallback: Seq<char>,
    home: Seq<char>,
) -> Seq<char> {
    let found = match dirs_text {
        Some(t) => entry_after(lines(t), user_dir_prefix(key)),
        None => None,
    };
    match found {
        Some(raw) => replace_all(trim_char(raw, '"'), "$HOME"@, home),
        None => join_path(home, fallback),
    }
}

/// The XDG user directory `key`, from the text of `user-dirs.dirs` when it
/// could be read.
pub fn user_dir(dirs_text: Option<&str>, key: &str, fallback: &str, home: &str) -> (out: String)
    ensures
        out@ == user_dir_spec(
            match dirs_text {
                Some(t) => Some(t@),
                None => None,
            },
            key@,
            fallback@,
            home@,
        ),
{
    let text = match dirs_text {
        Some(t) => t,
        None => return path_join(home, fallback),
    };
    let with_key = concat("XDG_", key);
    let prefix = concat(with_key.as_str(), "_DIR=");
    let ls = lines_of(text);
    let ghost lv = ls@.map_values(|l: String| l@);
    let mut i: usize = 0;
    proof {
        assert(lv.skip(0) =~= lv);
    }
    while i < ls.len()
        invariant
            i <= ls.len(),
            lv == ls@.map_values(|l: String| l@),
            lv == lines(text@),
            prefix@ == user_dir_prefix(key@),
            dirs_text == Some(text),
            entry_after(lv, prefix@) == entry_after(lv.skip(i as int), prefix@),
        decreases ls.len() - i,
    {
        proof {
            assert(lv.skip(i as int)[0] == ls@[i as int]@);
            assert(lv.skip(i as int).drop_first() =~= lv.skip(i + 1));
        }
        let line = trim_str(ls[i].as_str());
        match strip_prefix(line.as_str(), prefix.as_str()) {
            Some(rest) => {
                proof {
                    let t = lv.skip(i as int);
                    assert(line@ == trim(t[0]));
                    assert(has_prefix(line@, prefix@));
                    assert(entry_after(t, prefix@) == Some(rest@));
                }
                let raw = trim_char_str(rest.as_str(), '"');
                proof {
                    reveal_strlit("$HOME");
                    assert(entry_after(lines(text@), user_dir_prefix(key@)) == Some(rest@));
                    assert(dirs_text == Some(text));
                }
                let out = replace_str(raw.as_str(), "$HOME", home);
                proof {
                    assert(out@ == replace_all(trim_char(rest@, '"'), "$HOME"@, home@));
                }
                return out;
            },
            None => {},
        }
        i += 1;
    }
    proof {
        assert(lv.skip(ls.len() as int).len() == 0);
    }
    path_join(home, fallback)
}

// ---------------------------------------------------------------------------
// Accounts (`/etc/passwd`)
// ---------------------------------------------------------------------------
/// The `(name, gecos)` fields of the first `/etc/passwd` line, among `ls`,
/// with at least six fields whose uid field reads as `uid`.
pub open spec fn passwd_entry(ls: Seq<Seq<char>>, uid: u32) -> Option<(Seq<char>, Seq<char>)>
    decreases ls.len(),
{
    if ls.len() == 0 {
        None
    } else {
        let parts = split_all(ls[0], ':');
        if parts.len() >= 6 && parse_unsigned(parts[2], 10) == Some(uid as nat) {
            Some((parts[0], parts[4]))
        } else {
            passwd_entry(ls.drop_first(), uid)
        }
    }
}

/// The login name of `uid` in the passwd text, when it is not empty.
pub open spec fn users_name_spec(passwd: Seq<char>, uid: u32) -> Option<Seq<char>> {
    match passwd_entry(lines(passwd), uid) {
        Some((name, _)) => if name.len() > 0 {
            Some(name)
        } else {
            None
        },
        None => None,
    }
}

/// The real name of `uid`: the first comma-separated field of its GECOS
/// field, trimmed, when that is not empty.
pub open spec fn gecos_spec(passwd: Seq<char>, uid: u32) -> Option<Seq<char>> {
    match passwd_entry(lines(passwd), uid) {
        Some((_, g)) => {
            let name = trim(split_all(g, ',')[0]);
            if name.len() > 0 {
                Some(name)
            } else {
                None
            }
        },
        None => None,
    }
}

/// The passwd entry of `uid`: its login name and GECOS field.
fn passwd(text: &str, uid: u32) -> (out: Option<(String, String)>)
    ensures
        match passwd_entry(lines(text@), uid) {
            Some((n, g)) => out matches Some((a, b)) && a@ == n && b@ == g,
            None => out is None,
        },
{
    let ls = lines_of(text);
    let ghost lv = ls@.map_values(|l: String| l@);
    let mut i: usize = 0;
    proof {
        assert(lv.skip(0) =~= lv);
    }
    while i < ls.len()
        invariant
            i <= ls.len(),
            lv == ls@.map_values(|l: String| l@),
            lv == lines(text@),
            passwd_entry(lv, uid) == passwd_entry(lv.skip(i as int), uid),
        decreases ls.len() - i,
    {
        proof {
            assert(lv.skip(i as int)[0] == ls@[i as int]@);
            assert(lv.skip(i as int).drop_first() =~= lv.skip(i + 1));
        }
        let parts = crate::fspath::split_char(ls[i].as_str(), ':');
        let ghost pv = parts@.map_values(|x: String| x@);
        if parts.len() >= 6 {
            proof {
                assert(pv[2] == parts@[2]@);
            }
            match parse_u64_radix(parts[2].as_str(), 10) {
                Some(v) => {
                    if v == uid as u64 {
                        proof {
                            assert(pv[0] == parts@[0]@);
                            assert(pv[4] == parts@[4]@);
                        }
                        return Some((parts[0].clone(), parts[4].clone()));
                    }
                },
                None => {},
            }
        }
        i += 1;
    }
    proof {
        assert(lv.skip(ls.len() as int).len() == 0);
    }
    None
}

/// The login name of `uid` in the text of `/etc/passwd`, when it has a
/// non-empty one.
pub fn users_name(passwd_text: &str, uid: u32) -> (out: Option<String>)
    ensures
        match users_name_spec(passwd_text@, uid) {
            Some(n) => out matches Some(s) && s@ == n,
            None => out is None,
        },
{
    match passwd(passwd_text, uid) {
        Some((name, _)) => if name.as_str().is_empty() {
            None
        } else {
            Some(name)
        },
        None => None,
    }
}

/// The real name of `uid` in the text of `/etc/passwd`, from its GECOS
/// field.
pub fn gecos(passwd_text: &str, uid: u32) -> (out: Option<String>)
    ensures
        match gecos_spec(passwd_text@, uid) {
            Some(n) => out matches Some(s) && s@ == n,
            None => out is None,
        },
{
    match passwd(passwd_text, uid) {
        Some((_, g)) => {
            let fields = crate::fspath::split_char(g.as_str(), ',');
            proof {
                crate::fspath::lemma_split_all_len(g@, ',');
                assert(fields@.map_values(|x: String| x@)[0] == fields@[0]@);
            }
            let name = trim_str(fields[0].as_str());
            if name.as_str().is_empty() {
                None
            } else {
                Some(name)
            }
        },
        None => None,
    }
}

/// The user's login name: `$USER` when it is set, else the passwd entry of
/// `uid`, else `uid` in decimal.
pub open spec fn whoami_spec(user_env: Option<Seq<char>>, passwd: Option<Seq<char>>, uid: u32) -> Seq<
    char,
> {
    match user_env {
        Some(u) => u,
        None => match passwd {
            Some(t) => match users_name_spec(t, uid) {
                Some(n) => n,
                None => decimal(uid as nat),
            },
            None => decimal(uid as nat),
        },
    }
}

/// The user's login name; see [`whoami_spec`].
pub fn whoami(user_env: Option<&str>, passwd_text: Option<&str>, uid: u32) -> (out: String)
    ensures
        out@ == whoami_spec(
            match user_env {
                Some(u) => Some(u@),
                None => None,
            },
            match passwd_text {
                Some(t) => Some(t@),
                None => None,
            },
            uid,
        ),
{
    match user_env {
        Some(u) => u.to_owned(),
        None => {
            let found = match passwd_text {
                Some(t) => users_name(t, uid),
                None => None,
            };
            match found {
                Some(n) => n,
                None => decimal_string(uid as u64),
            }
        },
    }
}

/// The user's real name: the GECOS name of `uid`, else its login name in
/// the passwd text, else [`whoami`].
pub fn real_name(user_env: Option<&str>, passwd_text: Option<&str>, uid: u32) -> (out: String)
    ensures
        out@ == match passwd_text {
            Some(t) => match gecos_spec(t@, uid) {
                Some(g) => g,
                None => match users_name_spec(t@, uid) {
                    Some(n) => n,
                    None => whoami_spec(
                        match user_env {
                            Some(u) => Some(u@),
                            None => None,
                        },
                        Some(t@),
                        uid,
                    ),
                },
            },
            None => whoami_spec(
                match user_env {
                    Some(u) => Some(u@),
                    None => None,
                },
                None,
                uid,
            ),
        },
{
    match passwd_text {
        Some(t) => {
            match gecos(t, uid) {
                Some(g) => return g,
                None => {},
            }
            match users_name(t, uid) {
                Some(n) => return n,
                None => {},
            }
            whoami(user_env, passwd_text, uid)
        },
        None => whoami(user_env, passwd_text, uid),
    }
}

// ---------------------------------------------------------------------------
// Account picture and fresh file names
// ---------------------------------------------------------------------------
/// Where an account picture may be, in the order they are tried.
pub open spec fn face_candidates(home: Seq<char>, user: Seq<char>) -> Seq<Seq<char>> {
    seq![
        join_path(home, ".face"@),
        join_path(home, ".face.icon"@),
        join_path("/var/lib/AccountsService/icons"@, user),
    ]
}

/// Whether a call of `probe` on the path `p` may have answered `answer`.
pub open spec fn probed<P: Fn(&str) -> bool>(probe: P, p: Seq<char>, answer: bool) -> bool {
    exists|s: &str| s@ == p && #[trigger] probe.ensures((s,), answer)
}

/// The account picture: the first of [`face_candidates`] that `is_file`
/// says is a file.
pub fn face_image<P: Fn(&str) -> bool>(home: &str, user: &str, is_file: P) -> (out: Option<String>)
    requires
        forall|s: &str| is_file.requires((s,)),
    ensures
        ({
            let c = face_candidates(home@, user@);
            match out {
                Some(p) => exists|i: int|
                    0 <= i < 3 && p@ == c[i] && probed(is_file, c[i], true) && forall|j: int|
                        0 <= j < i ==> #[trigger] probed(is_file, c[j], false),
                None => forall|j: int| 0 <= j < 3 ==> #[trigger] probed(is_file, c[j], false),
            }
        }),
{
    let ghost c = face_candidates(home@, user@);
    let a = path_join(home, ".face");
    if is_file(a.as_str()) {
        proof {
            assert(probed(is_file, c[0], true));
        }
        return Some(a);
    }
    proof {
        assert(probed(is_file, c[0], false));
    }
    let b = path_join(home, ".face.icon");
    if is_file(b.as_str()) {
        proof {
            assert(probed(is_file, c[1], true));
        }
        return Some(b);
    }
    proof {
        assert(probed(is_file, c[1], false));
    }
    let d = path_join("/var/lib/AccountsService/icons", user);
    if is_file(d.as_str()) {
        proof {
            assert(probed(is_file, c[2], true));
        }
        return Some(d);
    }
    proof {
        assert(probed(is_file, c[2], false));
    }
    None
}

/// The stem of a file name (`Path::file_stem`), or the whole name when it
/// has none.
pub open spec fn stem_of(filename: Seq<char>) -> Seq<char> {
    match file_name(filename) {
        Some(n) => name_stem(n),
        None => filename,
    }
}

/// `"." + extension` of a file name, or nothing when it has none.
pub open spec fn dot_ext_of(filename: Seq<char>) -> Seq<char> {
    match file_name(filename) {
        Some(n) => match name_extension(n) {
            Some(e) => seq!['.'] + e,
            None => Seq::empty(),
        },
        None => Seq::empty(),
    }
}

/// The `n`th alternative name: `"stem (n).ext"`.
pub open spec fn numbered_name(filename: Seq<char>, n: nat) -> Seq<char> {
    stem_of(filename) + " ("@ + decimal(n) + ")"@ + dot_ext_of(filename)
}

/// The paths [`unique_path`] tries, in order: the name itself, then the
/// numbered names for 1 to 9999.
pub open spec fn unique_candidates(dir: Seq<char>, filename: Seq<char>) -> Seq<Seq<char>> {
    seq![join_path(dir, filename)] + Seq::new(
        9999,
        |k: int| join_path(dir, numbered_name(filename, (k + 1) as nat)),
    )
}

/// Whether `out` is what [`unique_path`] may give for `filename` in `dir`,
/// given the answers of `taken`: the first candidate said to be free, or
/// the name itself when every candidate is taken.
pub open spec fn unique_choice<E: Fn(&str) -> bool>(
    taken: E,
    dir: Seq<char>,
    filename: Seq<char>,
    out: Seq<char>,
) -> bool {
    ||| exists|i: int|
        0 <= i < unique_candidates(dir, filename).len() && out == unique_candidates(dir, filename)[i]
            && #[trigger] probed(taken, unique_candidates(dir, filename)[i], false) && forall|j: int|
            0 <= j < i ==> #[trigger] probed(taken, unique_candidates(dir, filename)[j], true)
    ||| out == join_path(dir, filename) && forall|j: int|
        0 <= j < unique_candidates(dir, filename).len() ==> #[trigger] probed(
            taken,
            unique_candidates(dir, filename)[j],
            true,
        )
}

/// A path in `dir` for `filename` that does not exist yet: the name itself,
/// else `"stem (n).ext"` for the least `n` below 10000 that is free, else
/// the name itself after all. `taken` tells whether a path exists.
pub fn unique_path<E: Fn(&str) -> bool>(dir: &str, filename: &str, taken: E) -> (out: String)
    requires
        forall|s: &str| taken.requires((s,)),
    ensures
        unique_choice(taken, dir@, filename@, out@),
{
    let ghost c = unique_candidates(dir@, filename@);
    let first = path_join(dir, filename);
    if !taken(first.as_str()) {
        proof {
            assert(probed(taken, c[0], false));
        }
        return first;
    }
    proof {
        assert(probed(taken, c[0], true));
    }
    let (stem, ext) = stem_and_ext(filename);
    let mut n: u64 = 1;
    while n < 10000
        invariant
            1 <= n <= 10000,
            c == unique_candidates(dir@, filename@),
            stem@ == stem_of(filename@),
            ext@ == dot_ext_of(filename@),
            forall|s: &str| taken.requires((s,)),
            forall|j: int| 0 <= j < n ==> #[trigger] probed(taken, c[j], true),
        decreases 10000 - n,
    {
        let num = decimal_string(n);
        let a = concat(stem.as_str(), " (");
        let b = concat(a.as_str(), num.as_str());
        let d = concat(b.as_str(), ")");
        let name = concat(d.as_str(), ext.as_str());
        let cand = path_join(dir, name.as_str());
        proof {
            assert(name@ == numbered_name(filename@, n as nat));
            assert(c[n as int] == join_path(dir@, numbered_name(filename@, n as nat)));
        }
        if !taken(cand.as_str()) {
            proof {
                assert(probed(taken, c[n as int], false));
            }
            return cand;
        }
        proof {
            assert(probed(taken, c[n as int], true));
        }
        n += 1;
    }
    proof {
        assert(c.len() == 10000);
    }
    path_join(dir, filename)
}

/// Whether a candidate is passed over: it is among `avoid`, or `taken` may
/// have said it exists.
pub open spec fn passed_over<E: Fn(&str) -> bool>(taken: E, avoid: Seq<Seq<char>>, p: Seq<char>) -> bool {
    avoid.contains(p) || probed(taken, p, true)
}

/// `out` is the first candidate for `filename` in `dir` that is not among
/// `avoid` and that `taken` said is free.
pub open spec fn found_free<E: Fn(&str) -> bool>(
    taken: E,
    dir: Seq<char>,
    filename: Seq<char>,
    avoid: Seq<Seq<char>>,
    out: Seq<char>,
) -> bool {
    exists|i: int|
        0 <= i < unique_candidates(dir, filename).len() && out == unique_candidates(dir, filename)[i]
            && !avoid.contains(out) && #[trigger] probed(taken, unique_candidates(dir, filename)[i], false)
            && forall|j: int|
            0 <= j < i ==> #[trigger] passed_over(taken, avoid, unique_candidates(dir, filename)[j])
}

/// Whether `out` is what [`unique_path_avoiding`] may give: the first
/// candidate that is neither among `avoid` nor taken, or the name itself
/// when every candidate is passed over.
pub open spec fn unique_choice_avoiding<E: Fn(&str) -> bool>(
    taken: E,
    dir: Seq<char>,
    filename: Seq<char>,
    avoid: Seq<Seq<char>>,
    out: Seq<char>,
) -> bool {
    ||| found_free(taken, dir, filename, avoid, out)
    ||| out == join_path(dir, filename) && forall|j: int|
        0 <= j < unique_candidates(dir, filename).len() ==> #[trigger] passed_over(
            taken,
            avoid,
            unique_candidates(dir, filename)[j],
        )
}

fn strings_contain(v: &Vec<String>, p: &str) -> (b: bool)
    ensures
        b == v@.map_values(|s: String| s@).contains(p@),
{
    let ghost vv = v@.map_values(|s: String| s@);
    let mut i: usize = 0;
    while i < v.len()
        invariant
            i <= v.len(),
            vv == v@.map_values(|s: String| s@),
            forall|k: int| 0 <= k < i ==> vv[k] != p@,
        decreases v.len() - i,
    {
        if str_eq(v[i].as_str(), p) {
            proof {
                assert(vv[i as int] == p@);
            }
            return true;
        }
        i += 1;
    }
    false
}

/// Like [`unique_path`], but the paths in `avoid` count as taken too (they
/// are passed over without asking `taken`).
pub fn unique_path_avoiding<E: Fn(&str) -> bool>(dir: &str, filename: &str, taken: E, avoid: &Vec<String>) -> (out: String)
    requires
        forall|s: &str| taken.requires((s,)),
    ensures
        unique_choice_avoiding(taken, dir@, filename@, avoid@.map_values(|s: String| s@), out@),
{
    let ghost c = unique_candidates(dir@, filename@);
    let ghost av = avoid@.map_values(|s: String| s@);
    let first = path_join(dir, filename);
    if !strings_contain(avoid, first.as_str()) {
        if !taken(first.as_str()) {
            proof {
                assert(probed(taken, c[0], false));
                assert(found_free(taken, dir@, filename@, av, first@));
            }
            return first;
        }
        proof {
            assert(probed(taken, c[0], true));
        }
    }
    proof {
        assert(passed_over(taken, av, c[0]));
    }
    let (stem, ext) = stem_and_ext(filename);
    let mut n: u64 = 1;
    while n < 10000
        invariant
            1 <= n <= 10000,
            c == unique_candidates(dir@, filename@),
            av == avoid@.map_values(|s: String| s@),
            stem@ == stem_of(filename@),
            ext@ == dot_ext_of(filename@),
            forall|s: &str| taken.requires((s,)),
            forall|j: int| 0 <= j < n ==> #[trigger] passed_over(taken, av, c[j]),
        decreases 10000 - n,
    {
        let num = decimal_string(n);
        let a = concat(stem.as_str(), " (");
        let b = concat(a.as_str(), num.as_str());
        let d = concat(b.as_str(), ")");
        let name = concat(d.as_str(), ext.as_str());
        let cand = path_join(dir, name.as_str());
        proof {
            assert(name@ == numbered_name(filename@, n as nat));
            assert(c[n as int] == join_path(dir@, numbered_name(filename@, n as nat)));
        }
        if !strings_contain(avoid, cand.as_str()) {
            if !taken(cand.as_str()) {
                proof {
                    assert(probed(taken, c[n as int], false));
                    assert(found_free(taken, dir@, filename@, av, cand@));
                }
                return cand;
            }
            proof {
                assert(probed(taken, c[n as int], true));
            }
        }
        proof {
            assert(passed_over(taken, av, c[n as int]));
        }
        n += 1;
    }
    proof {
        assert(c.len() == 10000);
    }
    path_join(dir, filename)
}

/// The paths picked one after another, each avoiding the earlier ones, are
/// pairwise distinct wherever each was found free.
pub proof fn law_found_free_distinct<E: Fn(&str) -> bool>(
    taken: E,
    dir: Seq<char>,
    names: Seq<Seq<char>>,
    picked: Seq<Seq<char>>,
)
    requires
        picked.len() == names.len(),
        forall|i: int|
            0 <= i < names.len() ==> #[trigger] found_free(taken, dir, names[i], picked.take(i), picked[i]),
    ensures
        picked.no_duplicates(),
{
    assert forall|i: int, j: int| 0 <= j < i < picked.len() implies picked[i] != picked[j] by {
        assert(found_free(taken, dir, names[i], picked.take(i), picked[i]));
        assert(picked.take(i)[j] == picked[j]);
        assert(picked.take(i).contains(picked[j]));
    }
}

/// The stem of `filename` and its extension with the dot, as
/// [`stem_of`] and [`dot_ext_of`] give them.
pub(crate) fn stem_and_ext(filename: &str) -> (out: (String, String))
    ensures
        out.0@ == stem_of(filename@),
        out.1@ == dot_ext_of(filename@),
{
    match path_file_name(filename) {
        Some(n) => {
            let v = chars_of(n.as_str());
            match ext_dot_exec(&v) {
                Some(i) => {
                    let stem = string_of_range(&v, 0, i);
                    let e = string_of_range(&v, i + 1, v.len());
                    let dotted = concat(".", e.as_str());
                    proof {
                        reveal_strlit(".");
                        assert(dotted@ =~= seq!['.'] + e@);
                    }
                    (stem, dotted)
                },
                None => (n.clone(), String::new()),
            }
        },
        None => (filename.to_owned(), String::new()),
    }
}

// ---------------------------------------------------------------------------
// GTK bookmarks and the sidebar places
// ---------------------------------------------------------------------------
/// One line of the GTK `bookmarks` file: a `file:` URI, optionally followed
/// by a space and a label. Without a label the file name is used, or the
/// whole path when it has none.
pub open spec fn bookmark_entry(line: Seq<char>) -> Option<(Seq<char>, Seq<char>)> {
    let l = trim(line);
    if l.len() == 0 {
        None
    } else {
        let (uri, name) = match split_once(l, ' ') {
            Some((u, n)) => (u, n),
            None => (l, Seq::empty()),
        };
        match file_uri_path(uri) {
            None => None,
            Some(path) => Some(
                (
                    path,
                    if name.len() == 0 {
                        match file_name(path) {
                            Some(n) => n,
                            None => path,
                        }
                    } else {
                        name
                    },
                ),
            ),
        }
    }
}

/// The `(path, label)` bookmarks of the given lines, in order.
pub open spec fn bookmark_list(ls: Seq<Seq<char>>) -> Seq<(Seq<char>, Seq<char>)>
    decreases ls.len(),
{
    if ls.len() == 0 {
        Seq::empty()
    } else {
        let rest = bookmark_list(ls.drop_last());
        match bookmark_entry(ls.last()) {
            Some(e) => rest.push(e),
            None => rest,
        }
    }
}

pub open spec fn pair_view(v: Seq<(String, String)>) -> Seq<(Seq<char>, Seq<char>)> {
    v.map_values(|e: (String, String)| (e.0@, e.1@))
}

/// The `(path, label)` bookmarks in the text of the GTK `bookmarks` file.
pub fn gtk_bookmarks(text: &str) -> (out: Vec<(String, String)>)
    ensures
        pair_view(out@) == bookmark_list(lines(text@)),
{
    let ls = lines_of(text);
    let ghost lv = ls@.map_values(|l: String| l@);
    let mut out: Vec<(String, String)> = Vec::new();
    let mut i: usize = 0;
    while i < ls.len()
        invariant
            i <= ls.len(),
            lv == ls@.map_values(|l: String| l@),
            lv == lines(text@),
            pair_view(out@) == bookmark_list(lv.take(i as int)),
        decreases ls.len() - i,
    {
        proof {
            assert(lv.take(i + 1).drop_last() =~= lv.take(i as int));
            assert(lv.take(i + 1).last() == ls@[i as int]@);
        }
        let ghost before = pair_view(out@);
        match bookmark_from_line(ls[i].as_str()) {
            Some(e) => {
                out.push(e);
                proof {
                    assert(pair_view(out@) =~= before.push((e.0@, e.1@)));
                }
            },
            None => {},
        }
        i += 1;
    }
    proof {
        assert(lv.take(ls.len() as int) =~= lv);
    }
    out
}

fn bookmark_from_line(line: &str) -> (out: Option<(String, String)>)
    ensures
        match bookmark_entry(line@) {
            Some((p, l)) => out matches Some((a, b)) && a@ == p && b@ == l,
            None => out is None,
        },
{
    let l = trim_str(line);
    if l.as_str().is_empty() {
        return None;
    }
    let (uri, name) = match split_once_char(l.as_str(), ' ') {
        Some((u, n)) => (u, n),
        None => (l.clone(), String::new()),
    };
    let path = match path_from_file_uri(uri.as_str()) {
        Some(p) => p,
        None => return None,
    };
    if name.as_str().is_empty() {
        let label = match path_file_name(path.as_str()) {
            Some(n) => n,
            None => path.clone(),
        };
        Some((path, label))
    } else {
        Some((path, name))
    }
}

/// The fixed sidebar entries, as `(label, path)`.
pub open spec fn standard_places(home: Seq<char>, dirs: Option<Seq<char>>) -> Seq<
    (Seq<char>, Seq<char>),
> {
    seq![
        ("Home"@, home),
        ("Downloads"@, user_dir_spec(dirs, "DOWNLOAD"@, "Downloads"@, home)),
        ("Documents"@, user_dir_spec(dirs, "DOCUMENTS"@, "Documents"@, home)),
        ("Pictures"@, user_dir_spec(dirs, "PICTURES"@, "Pictures"@, home)),
        ("Videos"@, user_dir_spec(dirs, "VIDEOS"@, "Videos"@, home)),
        ("Music"@, user_dir_spec(dirs, "MUSIC"@, "Music"@, home)),
        ("Projects"@, user_dir_spec(dirs, "PROJECTS"@, "Projects"@, home)),
        ("Computer"@, "/"@),
    ]
}

/// Every sidebar candidate, as `(label, path)`: the fixed entries, then the
/// GTK bookmarks.
pub open spec fn place_candidates(
    home: Seq<char>,
    dirs: Option<Seq<char>>,
    bookmarks: Option<Seq<char>>,
) -> Seq<(Seq<char>, Seq<char>)> {
    standard_places(home, dirs) + match bookmarks {
        Some(t) => bookmark_list(lines(t)).map_values(
            |e: (Seq<char>, Seq<char>)| (e.1, e.0),
        ),
        None => Seq::empty(),
    }
}

/// Whether some place already has the path `p`.
pub open spec fn has_place(out: Seq<(Seq<char>, Seq<char>)>, p: Seq<char>) -> bool {
    exists|i: int| 0 <= i < out.len() && #[trigger] same_path(out[i].1, p)
}

/// Adds a candidate whose path resolved to `canon` (`None`: it does not
/// exist), unless its path is already listed, or it is the home directory
/// under a label other than `Home` or `Computer`.
pub open spec fn push_place_spec(
    out: Seq<(Seq<char>, Seq<char>)>,
    label: Seq<char>,
    canon: Option<Seq<char>>,
    home: Seq<char>,
) -> Seq<(Seq<char>, Seq<char>)> {
    match canon {
        None => out,
        Some(c) => if has_place(out, c) || (label != "Home"@ && label != "Computer"@ && same_path(
            c,
            home,
        )) {
            out
        } else {
            out.push((label, c))
        },
    }
}

/// The places built from the first `n` candidates, with `answers[k]` the
/// resolved path of candidate `k`.
pub open spec fn places_upto(
    cands: Seq<(Seq<char>, Seq<char>)>,
    answers: Seq<Option<Seq<char>>>,
    home: Seq<char>,
    n: nat,
) -> Seq<(Seq<char>, Seq<char>)>
    decreases n,
{
    if n == 0 {
        Seq::empty()
    } else {
        push_place_spec(
            places_upto(cands, answers, home, (n - 1) as nat),
            cands[n - 1].0,
            answers[n - 1],
            home,
        )
    }
}

pub open spec fn opt_view(r: Option<String>) -> Option<Seq<char>> {
    match r {
        Some(x) => Some(x@),
        None => None,
    }
}

/// Whether a call of `resolve` on the path `p` may have answered `a`.
pub open spec fn resolved<R: Fn(&str) -> Option<String>>(
    resolve: R,
    p: Seq<char>,
    a: Option<Seq<char>>,
) -> bool {
    exists|s: &str, r: Option<String>|
        s@ == p && #[trigger] resolve.ensures((s,), r) && opt_view(r) == a
}

/// No two places share a path, and no place but `Home` and `Computer` is the
/// home directory, whatever the candidates resolve to.
pub proof fn law_places_distinct(
    cands: Seq<(Seq<char>, Seq<char>)>,
    answers: Seq<Option<Seq<char>>>,
    home: Seq<char>,
    n: nat,
)
    ensures
        ({
            let out = places_upto(cands, answers, home, n);
            &&& forall|i: int, j: int|
                0 <= i < j < out.len() ==> !same_path(#[trigger] out[i].1, #[trigger] out[j].1)
            &&& forall|i: int|
                0 <= i < out.len() && out[i].0 != "Home"@ && out[i].0 != "Computer"@ ==> !same_path(
                    #[trigger] out[i].1,
                    home,
                )
        }),
    decreases n,
{
    if n > 0 {
        law_places_distinct(cands, answers, home, (n - 1) as nat);
        let prev = places_upto(cands, answers, home, (n - 1) as nat);
        let out = places_upto(cands, answers, home, n);
        if out.len() > prev.len() {
            assert forall|i: int, j: int|
                0 <= i < j < out.len() implies !same_path(#[trigger] out[i].1, #[trigger] out[j].1) by {
                if j == out.len() - 1 {
                    assert(out[i] == prev[i]);
                    if same_path(prev[i].1, out[j].1) {
                        assert(has_place(prev, out[j].1));
                    }
                } else {
                    assert(out[i] == prev[i]);
                    assert(out[j] == prev[j]);
                }
            }
            assert forall|i: int|
                0 <= i < out.len() && out[i].0 != "Home"@ && out[i].0 != "Computer"@ implies !same_path(
                #[trigger] out[i].1,
                home,
            ) by {
                if i < prev.len() {
                    assert(out[i] == prev[i]);
                }
            }
        }
    }
}

/// The sidebar candidates, as [`place_candidates`] lists them.
fn place_candidate_list(home: &str, dirs: Option<&str>, bookmarks: Option<&str>) -> (out: Vec<
    (String, String),
>)
    ensures
        pair_view(out@) == place_candidates(home@, opt_str(dirs), opt_str(bookmarks)),
{
    let mut out: Vec<(String, String)> = Vec::new();
    out.push(("Home".to_owned(), home.to_owned()));
    out.push(("Downloads".to_owned(), user_dir(dirs, "DOWNLOAD", "Downloads", home)));
    out.push(("Documents".to_owned(), user_dir(dirs, "DOCUMENTS", "Documents", home)));
    out.push(("Pictures".to_owned(), user_dir(dirs, "PICTURES", "Pictures", home)));
    out.push(("Videos".to_owned(), user_dir(dirs, "VIDEOS", "Videos", home)));
    out.push(("Music".to_owned(), user_dir(dirs, "MUSIC", "Music", home)));
    out.push(("Projects".to_owned(), user_dir(dirs, "PROJECTS", "Projects", home)));
    out.push(("Computer".to_owned(), "/".to_owned()));
    proof {
        assert(pair_view(out@) =~= standard_places(home@, opt_str(dirs)));
    }
    let ghost fixed = pair_view(out@);
    match bookmarks {
        Some(t) => {
            let marks = gtk_bookmarks(t);
            let ghost mv = pair_view(marks@);
            let mut i: usize = 0;
            while i < marks.len()
                invariant
                    i <= marks.len(),
                    mv == pair_view(marks@),
                    pair_view(out@) == fixed + mv.take(i as int).map_values(
                        |e: (Seq<char>, Seq<char>)| (e.1, e.0),
                    ),
                decreases marks.len() - i,
            {
                let ghost before = pair_view(out@);
                let p = marks[i].0.clone();
                let l = marks[i].1.clone();
                proof {
                    assert(p@ == mv[i as int].0);
                    assert(l@ == mv[i as int].1);
                }
                out.push((l, p));
                proof {
                    assert(pair_view(out@) =~= before.push((mv[i as int].1, mv[i as int].0)));
                    assert(mv.take(i + 1).map_values(|e: (Seq<char>, Seq<char>)| (e.1, e.0))
                        =~= mv.take(i as int).map_values(|e: (Seq<char>, Seq<char>)| (e.1, e.0)).push(
                        (mv[i as int].1, mv[i as int].0),
                    ));
                }
                i += 1;
            }
            proof {
                assert(mv.take(marks.len() as int) =~= mv);
            }
        },
        None => {
            proof {
                assert(fixed + Seq::<(Seq<char>, Seq<char>)>::empty() =~= fixed);
            }
        },
    }
    out
}

pub open spec fn opt_str(s: Option<&str>) -> Option<Seq<char>> {
    match s {
        Some(x) => Some(x@),
        None => None,
    }
}

/// Adds a candidate whose path resolved to `canon`, as [`push_place_spec`]
/// says.
fn push_place(out: &mut Vec<(String, String)>, label: &str, canon: String, home: &str)
    ensures
        pair_view(final(out)@) == push_place_spec(pair_view(old(out)@), label@, Some(canon@), home@),
{
    let ghost ov = pair_view(out@);
    let mut i: usize = 0;
    while i < out.len()
        invariant
            i <= out.len(),
            ov == pair_view(out@),
            forall|k: int| 0 <= k < i ==> !same_path(#[trigger] ov[k].1, canon@),
        decreases out.len() - i,
    {
        proof {
            assert(ov[i as int].1 == out@[i as int].1@);
        }
        if paths_equal(out[i].1.as_str(), canon.as_str()) {
            proof {
                assert(same_path(ov[i as int].1, canon@));
                assert(has_place(ov, canon@));
            }
            return;
        }
        i += 1;
    }
    proof {
        if has_place(ov, canon@) {
            let k = choose|k: int| 0 <= k < ov.len() && #[trigger] same_path(ov[k].1, canon@);
            assert(!same_path(ov[k].1, canon@));
        }
    }
    let special = str_eq(label, "Home") || str_eq(label, "Computer");
    if !special && paths_equal(canon.as_str(), home) {
        return;
    }
    let ghost before = pair_view(out@);
    out.push((label.to_owned(), canon));
    proof {
        assert(pair_view(out@) =~= before.push((label@, canon@)));
    }
}

/// The file chooser's sidebar: the home directory, the XDG user directories
/// (from the text of `user-dirs.dirs` when it could be read), the root and
/// the GTK bookmarks (from the text of the `bookmarks` file), each as
/// `(label, path)`. `resolve` gives a path's canonical form, or `None` when
/// it does not exist; see [`push_place_spec`] for what is left out.
pub fn places<R: Fn(&str) -> Option<String>>(
    home: &str,
    user_dirs: Option<&str>,
    bookmarks: Option<&str>,
    resolve: R,
) -> (out: Vec<(String, String)>)
    requires
        forall|s: &str| resolve.requires((s,)),
    ensures
        ({
            let cands = place_candidates(home@, opt_str(user_dirs), opt_str(bookmarks));
            exists|answers: Seq<Option<Seq<char>>>|
                #[trigger] places_upto(cands, answers, home@, cands.len()) == pair_view(out@)
                    && answers.len() == cands.len() && forall|k: int|
                    0 <= k < cands.len() ==> #[trigger] resolved(resolve, cands[k].1, answers[k])
        }),
{
    let cands = place_candidate_list(home, user_dirs, bookmarks);
    let ghost cv = pair_view(cands@);
    let mut out: Vec<(String, String)> = Vec::new();
    let ghost mut answers: Seq<Option<Seq<char>>> = Seq::empty();
    let mut i: usize = 0;
    while i < cands.len()
        invariant
            i <= cands.len(),
            cv == pair_view(cands@),
            cv == place_candidates(home@, opt_str(user_dirs), opt_str(bookmarks)),
            forall|s: &str| resolve.requires((s,)),
            answers.len() == i,
            pair_view(out@) == places_upto(cv, answers, home@, i as nat),
            forall|k: int| 0 <= k < i ==> #[trigger] resolved(resolve, cv[k].1, answers[k]),
        decreases cands.len() - i,
    {
        let r = resolve(cands[i].1.as_str());
        proof {
            assert(cands@[i as int].1@ == cv[i as int].1);
            assert(resolved(resolve, cv[i as int].1, opt_view(r)));
        }
        let ghost prev_answers = answers;
        proof {
            answers = answers.push(opt_view(r));
            assert forall|k: int| 0 <= k < i implies answers[k] == prev_answers[k] by {}
            lemma_places_upto_prefix(cv, prev_answers, answers, home@, i as nat);
        }
        match r {
            Some(c) => {
                push_place(&mut out, cands[i].0.as_str(), c, home);
                proof {
                    assert(cands@[i as int].0@ == cv[i as int].0);
                }
            },
            None => {},
        }
        i += 1;
    }
    proof {
        assert(places_upto(cv, answers, home@, cv.len()) == pair_view(out@));
    }
    out
}

/// Places built from answers that agree on the first `n` candidates agree.
proof fn lemma_places_upto_prefix(
    cands: Seq<(Seq<char>, Seq<char>)>,
    a: Seq<Option<Seq<char>>>,
    b: Seq<Option<Seq<char>>>,
    home: Seq<char>,
    n: nat,
)
    requires
        n <= a.len(),
        n <= b.len(),
        forall|k: int| 0 <= k < n ==> a[k] == b[k],
    ensures
        places_upto(cands, a, home, n) == places_upto(cands, b, home, n),
    decreases n,
{
    if n > 0 {
        lemma_places_upto_prefix(cands, a, b, home, (n - 1) as nat);
    }
}

// ---------------------------------------------------------------------------
// Recent files (`recently-used.xbel`)
// ---------------------------------------------------------------------------
pub open spec fn bookmark_open() -> Seq<char> {
    seq!['<', 'b', 'o', 'o', 'k', 'm', 'a', 'r', 'k', ' ']
}

/// The value of the attribute `name` in an XML tag: the text between
/// `name="` and the next `"`.
pub open spec fn xml_attr_spec(tag: Seq<char>, name: Seq<char>) -> Option<Seq<char>> {
    let key = name + seq!['=', '"'];
    match find(tag, key) {
        Some(i) => {
            let start = i + key.len();
            match first_index(tag.subrange(start, tag.len() as int), '"') {
                Some(e) => Some(tag.subrange(start, start + e)),
                None => None,
            }
        },
        None => None,
    }
}

/// The `<bookmark ...` tags of `s` from position `from` on, each up to (not
/// including) its `'>'`, or to the end of the text.
pub open spec fn xbel_tags_from(s: Seq<char>, from: int) -> Seq<Seq<char>>
    decreases s.len() - from,
{
    if from < 0 || from > s.len() {
        Seq::empty()
    } else {
        proof {
            lemma_find_from_bounds(s, bookmark_open(), from);
        }
        match find_from(s, bookmark_open(), from) {
            None => Seq::empty(),
            Some(at) => {
                let rest = s.subrange(at, s.len() as int);
                proof {
                    lemma_first_index_bounds(rest, '>');
                    assert(s.subrange(at, at + bookmark_open().len())[0] == s[at]);
                    assert(rest[0] == s[at]);
                }
                let end = match first_index(rest, '>') {
                    Some(e) => at + e,
                    None => s.len() as int,
                };
                seq![s.subrange(at, end)] + xbel_tags_from(s, end)
            },
        }
    }
}

/// The `(visited, href)` pair of a bookmark tag whose `href` is a `file:`
/// URI; a missing `visited` reads as empty.
pub open spec fn xbel_item(tag: Seq<char>) -> Option<(Seq<char>, Seq<char>)> {
    match xml_attr_spec(tag, "href"@) {
        Some(h) => if has_prefix(h, "file:"@) {
            Some(
                (
                    match xml_attr_spec(tag, "visited"@) {
                        Some(v) => v,
                        None => Seq::empty(),
                    },
                    h,
                ),
            )
        } else {
            None
        },
        None => None,
    }
}

pub open spec fn xbel_items(tags: Seq<Seq<char>>) -> Seq<(Seq<char>, Seq<char>)>
    decreases tags.len(),
{
    if tags.len() == 0 {
        Seq::empty()
    } else {
        let rest = xbel_items(tags.drop_first());
        match xbel_item(tags[0]) {
            Some(e) => seq![e] + rest,
            None => rest,
        }
    }
}

/// The `(visited, href)` pairs of the `file:` bookmarks of an xbel text, in
/// document order.
pub open spec fn xbel_entries(text: Seq<char>) -> Seq<(Seq<char>, Seq<char>)> {
    xbel_items(xbel_tags_from(text, 0))
}

/// The value of attribute `name` in the XML tag `tag`.
pub fn xml_attr(tag: &str, name: &str) -> (out: Option<String>)
    ensures
        match xml_attr_spec(tag@, name@) {
            Some(v) => out matches Some(s) && s@ == v,
            None => out is None,
        },
{
    proof {
        reveal_strlit("=\"");
        assert("=\""@ =~= seq!['=', '"']);
    }
    let key = concat(name, "=\"");
    let tv = chars_of(tag);
    let kv = chars_of(key.as_str());
    proof {
        lemma_find_from_bounds(tv@, kv@, 0);
    }
    let i = match find_at(&tv, 0, &kv) {
        Some(i) => i,
        None => return None,
    };
    proof {
        assert(i + kv.len() <= tv.len());
    }
    let start = i + kv.len();
    let ghost rest = tv@.subrange(start as int, tv@.len() as int);
    match index_of_from(&tv, start, '"') {
        Some(e) => {
            proof {
                assert forall|k: int| 0 <= k < e - start implies rest[k] != '"' by {
                    assert(rest[k] == tv@[start + k]);
                }
                assert(rest[e - start] == tv@[e as int]);
                lemma_first_index_is(rest, '"', e - start);
            }
            Some(string_of_range(&tv, start, e))
        },
        None => {
            proof {
                assert forall|k: int| 0 <= k < rest.len() implies rest[k] != '"' by {
                    assert(rest[k] == tv@[start + k]);
                }
                lemma_first_index_is(rest, '"', rest.len() as int);
            }
            None
        },
    }
}

/// The `(visited, href)` pair of one bookmark tag, if it names a `file:` URI.
fn xbel_item_of(tag: &str) -> (out: Option<(String, String)>)
    ensures
        match xbel_item(tag@) {
            Some((v, h)) => out matches Some((a, b)) && a@ == v && b@ == h,
            None => out is None,
        },
{
    let href = match xml_attr(tag, "href") {
        Some(h) => h,
        None => return None,
    };
    if !starts_with(href.as_str(), "file:") {
        return None;
    }
    let visited = match xml_attr(tag, "visited") {
        Some(v) => v,
        None => String::new(),
    };
    Some((visited, href))
}

/// The `(visited, href)` pairs of the `file:` bookmarks of an xbel text.
fn xbel_entry_list(text: &str) -> (out: Vec<(String, String)>)
    ensures
        pair_view(out@) == xbel_entries(text@),
{
    let v = chars_of(text);
    let bm = chars_of("<bookmark ");
    proof {
        reveal_strlit("<bookmark ");
        assert(bm@ =~= bookmark_open());
    }
    let mut out: Vec<(String, String)> = Vec::new();
    let mut pos: usize = 0;
    proof {
        assert(pair_view(out@) + xbel_items(xbel_tags_from(v@, 0)) =~= xbel_entries(text@));
    }
    loop
        invariant
            pos <= v.len(),
            v@ == text@,
            bm@ == bookmark_open(),
            pair_view(out@) + xbel_items(xbel_tags_from(v@, pos as int)) == xbel_entries(text@),
        decreases v.len() - pos,
    {
        proof {
            lemma_find_from_bounds(v@, bm@, pos as int);
        }
        let at = match find_at(&v, pos, &bm) {
            Some(at) => at,
            None => {
                proof {
                    assert(xbel_tags_from(v@, pos as int) =~= Seq::<Seq<char>>::empty());
                    assert(pair_view(out@) + Seq::<(Seq<char>, Seq<char>)>::empty() =~= pair_view(
                        out@,
                    ));
                }
                return out;
            },
        };
        let ghost rest = v@.subrange(at as int, v@.len() as int);
        let end = match index_of_from(&v, at, '>') {
            Some(e) => {
                proof {
                    assert forall|k: int| 0 <= k < e - at implies rest[k] != '>' by {
                        assert(rest[k] == v@[at + k]);
                    }
                    assert(rest[e - at] == v@[e as int]);
                    lemma_first_index_is(rest, '>', e - at);
                }
                e
            },
            None => {
                proof {
                    assert forall|k: int| 0 <= k < rest.len() implies rest[k] != '>' by {
                        assert(rest[k] == v@[at + k]);
                    }
                    lemma_first_index_is(rest, '>', rest.len() as int);
                }
                v.len()
            },
        };
        proof {
            assert(v@.subrange(at as int, at + bm@.len())[0] == v@[at as int]);
            assert(rest[0] == v@[at as int]);
            assert(end > pos);
        }
        let tag = string_of_range(&v, at, end);
        let ghost tags = xbel_tags_from(v@, pos as int);
        proof {
            assert(tags == seq![tag@] + xbel_tags_from(v@, end as int));
            assert(tags[0] == tag@);
            assert(tags.drop_first() =~= xbel_tags_from(v@, end as int));
        }
        let ghost before = pair_view(out@);
        match xbel_item_of(tag.as_str()) {
            Some(e) => {
                let ghost ev = (e.0@, e.1@);
                out.push(e);
                proof {
                    assert(pair_view(out@) =~= before.push(ev));
                    assert(before + xbel_items(tags) =~= pair_view(out@) + xbel_items(
                        xbel_tags_from(v@, end as int),
                    ));
                }
            },
            None => {},
        }
        pos = end;
    }
}

/// The sort keys of `(visited, href)` pairs: the code points of `visited`.
pub open spec fn visited_keys(items: Seq<(Seq<char>, Seq<char>)>) -> Seq<Seq<u64>> {
    items.map_values(|e: (Seq<char>, Seq<char>)| code_key(e.0))
}

/// Whether `hrefs` are the `href`s of the `file:` bookmarks of an xbel
/// text, stably sorted by `visited`, latest first.
pub open spec fn xbel_hrefs(text: Seq<char>, hrefs: Seq<Seq<char>>) -> bool {
    let items = xbel_entries(text);
    exists|sorted: Seq<(Seq<char>, Seq<char>)>|
        #[trigger] sorted_by_keys(sorted, items, visited_keys(items), true) && hrefs
            == sorted.map_values(|e: (Seq<char>, Seq<char>)| e.1)
}

/// The `href`s of the `file:` bookmarks of a `recently-used.xbel` text,
/// most recently visited first; bookmarks visited at the same time keep
/// their document order.
pub fn parse_recently_used_xbel(text: &str) -> (out: Vec<String>)
    ensures
        xbel_hrefs(text@, out@.map_values(|s: String| s@)),
{
    let items = xbel_entry_list(text);
    let ghost iv = pair_view(items@);
    let mut keys: Vec<Vec<u64>> = Vec::new();
    let mut k: usize = 0;
    while k < items.len()
        invariant
            k <= items.len(),
            iv == pair_view(items@),
            keys@.map_values(|x: Vec<u64>| x@) == iv.take(k as int).map_values(
                |e: (Seq<char>, Seq<char>)| code_key(e.0),
            ),
        decreases items.len() - k,
    {
        let ghost before = keys@.map_values(|x: Vec<u64>| x@);
        keys.push(char_key(items[k].0.as_str()));
        proof {
            assert(items@[k as int].0@ == iv[k as int].0);
            assert(keys@.map_values(|x: Vec<u64>| x@) =~= before.push(code_key(iv[k as int].0)));
            assert(iv.take(k + 1).map_values(|e: (Seq<char>, Seq<char>)| code_key(e.0)) =~= iv.take(
                k as int,
            ).map_values(|e: (Seq<char>, Seq<char>)| code_key(e.0)).push(code_key(iv[k as int].0)));
        }
        k += 1;
    }
    proof {
        assert(iv.take(items.len() as int) =~= iv);
    }
    let ghost orig = items@;
    let sorted = sort_by_keys(items, keys, true);
    let ghost kk = iv.map_values(|e: (Seq<char>, Seq<char>)| code_key(e.0));
    let ghost sv = pair_view(sorted@);
    proof {
        let p = choose|p: Seq<int>| is_sorting(p, sorted@, orig, kk, true);
        assert(is_sorting(p, sv, iv, kk, true));
        assert(sorted_by_keys(sv, iv, kk, true));
        assert(kk == visited_keys(iv));
    }
    let mut out: Vec<String> = Vec::new();
    let mut j: usize = 0;
    while j < sorted.len()
        invariant
            j <= sorted.len(),
            sv == pair_view(sorted@),
            out@.map_values(|s: String| s@) == sv.take(j as int).map_values(
                |e: (Seq<char>, Seq<char>)| e.1,
            ),
        decreases sorted.len() - j,
    {
        let ghost before = out@.map_values(|s: String| s@);
        out.push(sorted[j].1.clone());
        proof {
            assert(sorted@[j as int].1@ == sv[j as int].1);
            assert(out@.map_values(|s: String| s@) =~= before.push(sv[j as int].1));
            assert(sv.take(j + 1).map_values(|e: (Seq<char>, Seq<char>)| e.1) =~= sv.take(
                j as int,
            ).map_values(|e: (Seq<char>, Seq<char>)| e.1).push(sv[j as int].1));
        }
        j += 1;
    }
    proof {
        assert(sv.take(sorted.len() as int) =~= sv);
    }
    out
}

/// The place name of the recent-files view in the sidebar.
pub const RECENT_PLACE: &'static str = "recent:";

/// A recently used file.
#[derive(Clone, Debug, PartialEq, Eq)]
pub struct RecentFile {
    pub label: String,
    pub path: String,
    pub is_dir: bool,
    pub size: u64,
    pub modified: i64,
}

/// What the file system says of an existing path: whether it is a
/// directory, its size and its modification time in seconds since the
/// epoch (zeros where its metadata could not be read).
#[derive(Clone, Copy, Debug, PartialEq, Eq)]
pub struct FileStat {
    pub is_dir: bool,
    pub size: u64,
    pub modified: i64,
}

/// `(label, path, is_dir, size, modified)` of a recent file.
pub type RecentView = (Seq<char>, Seq<char>, bool, u64, i64);

pub open spec fn recent_view(r: RecentFile) -> RecentView {
    (r.label@, r.path@, r.is_dir, r.size, r.modified)
}

/// The entry for an existing path: labelled with its file name, or with the
/// whole path when it has none.
pub open spec fn recent_entry(path: Seq<char>, st: FileStat) -> RecentView {
    (
        match file_name(path) {
            Some(n) => n,
            None => path,
        },
        path,
        st.is_dir,
        st.size,
        st.modified,
    )
}

/// The list is complete once it holds an entry and at least `limit` of them.
pub open spec fn recent_done(out: Seq<RecentView>, limit: nat) -> bool {
    out.len() > 0 && out.len() >= limit
}

pub open spec fn has_recent(out: Seq<RecentView>, p: Seq<char>) -> bool {
    exists|i: int| 0 <= i < out.len() && #[trigger] same_path(out[i].1, p)
}

/// Whether the `n`th href needs the file system's answer: the list is not
/// complete and the href is a `file:` URI.
pub open spec fn recent_asks(
    hrefs: Seq<Seq<char>>,
    answers: Seq<Option<FileStat>>,
    limit: nat,
    n: nat,
) -> bool {
    !recent_done(recent_upto(hrefs, answers, limit, n), limit) && file_uri_path(hrefs[n as int]) is Some
}

/// The recent files from the first `n` hrefs, with `answers[k]` what the
/// file system said of href `k`'s path (`None`: it does not exist). Paths
/// that are missing or already listed are skipped, and the list stops
/// growing once complete.
pub open spec fn recent_upto(
    hrefs: Seq<Seq<char>>,
    answers: Seq<Option<FileStat>>,
    limit: nat,
    n: nat,
) -> Seq<RecentView>
    decreases n,
{
    if n == 0 {
        Seq::empty()
    } else {
        let out = recent_upto(hrefs, answers, limit, (n - 1) as nat);
        if recent_done(out, limit) {
            out
        } else {
            match file_uri_path(hrefs[n - 1]) {
                None => out,
                Some(p) => match answers[n - 1] {
                    None => out,
                    Some(st) => if has_recent(out, p) {
                        out
                    } else {
                        out.push(recent_entry(p, st))
                    },
                },
            }
        }
    }
}

/// Whether a call of `stat` on the path `p` may have answered `a`.
pub open spec fn stat_said<S: Fn(&str) -> Option<FileStat>>(
    stat: S,
    p: Seq<char>,
    a: Option<FileStat>,
) -> bool {
    exists|s: &str| s@ == p && #[trigger] stat.ensures((s,), a)
}

/// The recent files for a list of hrefs; see [`recent_upto`].
pub open spec fn recent_result<S: Fn(&str) -> Option<FileStat>>(
    hrefs: Seq<Seq<char>>,
    limit: nat,
    stat: S,
    out: Seq<RecentView>,
) -> bool {
    exists|answers: Seq<Option<FileStat>>|
        #[trigger] recent_upto(hrefs, answers, limit, hrefs.len()) == out && answers.len()
            == hrefs.len() && forall|k: int|
            0 <= k < hrefs.len() && #[trigger] recent_asks(hrefs, answers, limit, k as nat)
                ==> stat_said(stat, file_uri_path(hrefs[k]).unwrap(), answers[k])
}

/// The recent files named by `hrefs`, in order: each `file:` URI whose path
/// exists, once, until `limit` entries are listed (one at least).
pub fn recent_from_hrefs<S: Fn(&str) -> Option<FileStat>>(
    hrefs: &Vec<String>,
    limit: usize,
    stat: S,
) -> (out: Vec<RecentFile>)
    requires
        forall|s: &str| stat.requires((s,)),
    ensures
        recent_result(
            hrefs@.map_values(|h: String| h@),
            limit as nat,
            stat,
            out@.map_values(|r: RecentFile| recent_view(r)),
        ),
{
    let ghost hv = hrefs@.map_values(|h: String| h@);
    let mut out: Vec<RecentFile> = Vec::new();
    let ghost mut answers: Seq<Option<FileStat>> = Seq::empty();
    let mut i: usize = 0;
    while i < hrefs.len()
        invariant
            i <= hrefs.len(),
            hv == hrefs@.map_values(|h: String| h@),
            forall|s: &str| stat.requires((s,)),
            answers.len() == i,
            out@.map_values(|r: RecentFile| recent_view(r)) == recent_upto(
                hv,
                answers,
                limit as nat,
                i as nat,
            ),
            forall|k: int|
                0 <= k < i && #[trigger] recent_asks(hv, answers, limit as nat, k as nat)
                    ==> stat_said(stat, file_uri_path(hv[k]).unwrap(), answers[k]),
            recent_done(out@.map_values(|r: RecentFile| recent_view(r)), limit as nat) ==> i
                == hrefs.len(),
        decreases hrefs.len() - i,
    {
        let ghost ov = out@.map_values(|r: RecentFile| recent_view(r));
        let ghost prev_answers = answers;
        proof {
            assert(hrefs@[i as int]@ == hv[i as int]);
        }
        let path = path_from_file_uri(hrefs[i].as_str());
        let mut answer: Option<FileStat> = None;
        match path {
            Some(p) => {
                let st = stat(p.as_str());
                proof {
                    assert(stat_said(stat, p@, st));
                }
                answer = st;
                match st {
                    Some(info) => {
                        let mut seen = false;
                        let mut k: usize = 0;
                        while k < out.len()
                            invariant
                                k <= out.len(),
                                ov == out@.map_values(|r: RecentFile| recent_view(r)),
                                !seen ==> forall|j: int| 0 <= j < k ==> !#[trigger] same_path(ov[j].1, p@),
                                seen ==> has_recent(ov, p@),
                            decreases out.len() - k,
                        {
                            proof {
                                assert(ov[k as int].1 == out@[k as int].path@);
                            }
                            if !seen && paths_equal(out[k].path.as_str(), p.as_str()) {
                                seen = true;
                                proof {
                                    assert(same_path(ov[k as int].1, p@));
                                }
                            }
                            k += 1;
                        }
                        proof {
                            if !seen && has_recent(ov, p@) {
                                let j = choose|j: int| 0 <= j < ov.len() && #[trigger] same_path(ov[j].1, p@);
                                assert(!same_path(ov[j].1, p@));
                            }
                        }
                        if !seen {
                            let label = match path_file_name(p.as_str()) {
                                Some(n) => n,
                                None => p.clone(),
                            };
                            out.push(
                                RecentFile {
                                    label,
                                    path: p,
                                    is_dir: info.is_dir,
                                    size: info.size,
                                    modified: info.modified,
                                },
                            );
                        }
                    },
                    None => {},
                }
            },
            None => {},
        }
        proof {
            answers = answers.push(answer);
            assert forall|k: int| 0 <= k < i implies answers[k] == prev_answers[k] by {}
            lemma_recent_upto_prefix(hv, prev_answers, answers, limit as nat, i as nat);
            assert(!recent_done(ov, limit as nat));
            assert(out@.map_values(|r: RecentFile| recent_view(r)) =~= recent_upto(
                hv,
                answers,
                limit as nat,
                (i + 1) as nat,
            ));
            assert forall|k: int|
                0 <= k < i + 1 && #[trigger] recent_asks(hv, answers, limit as nat, k as nat)
                    implies stat_said(stat, file_uri_path(hv[k]).unwrap(), answers[k]) by {
                if k < i {
                    lemma_recent_upto_prefix(hv, prev_answers, answers, limit as nat, k as nat);
                    assert(recent_asks(hv, prev_answers, limit as nat, k as nat));
                }
            }
        }
        i += 1;
        if out.len() > 0 && out.len() >= limit {
            proof {
                let full = answers + Seq::new(
                    (hv.len() - i) as nat,
                    |k: int| None::<FileStat>,
                );
                assert forall|k: int| 0 <= k < i implies full[k] == answers[k] by {}
                lemma_recent_upto_prefix(hv, answers, full, limit as nat, i as nat);
                lemma_recent_done_stays(hv, full, limit as nat, i as nat, hv.len());
                assert forall|k: int|
                    0 <= k < hv.len() && #[trigger] recent_asks(hv, full, limit as nat, k as nat)
                        implies stat_said(stat, file_uri_path(hv[k]).unwrap(), full[k]) by {
                    if k < i {
                        lemma_recent_upto_prefix(hv, answers, full, limit as nat, k as nat);
                        assert(recent_asks(hv, answers, limit as nat, k as nat));
                    } else {
                        lemma_recent_done_stays(hv, full, limit as nat, i as nat, k as nat);
                    }
                }
                assert(recent_upto(hv, full, limit as nat, hv.len()) == out@.map_values(
                    |r: RecentFile| recent_view(r),
                ));
            }
            return out;
        }
    }
    proof {
        assert(recent_upto(hv, answers, limit as nat, hv.len()) == out@.map_values(
            |r: RecentFile| recent_view(r),
        ));
    }
    out
}

/// Hrefs whose answers agree up to `n` give the same recent files up to `n`.
proof fn lemma_recent_upto_prefix(
    hrefs: Seq<Seq<char>>,
    a: Seq<Option<FileStat>>,
    b: Seq<Option<FileStat>>,
    limit: nat,
    n: nat,
)
    requires
        n <= a.len(),
        n <= b.len(),
        forall|k: int| 0 <= k < n ==> a[k] == b[k],
    ensures
        recent_upto(hrefs, a, limit, n) == recent_upto(hrefs, b, limit, n),
    decreases n,
{
    if n > 0 {
        lemma_recent_upto_prefix(hrefs, a, b, limit, (n - 1) as nat);
    }
}

/// Once complete, the list stays as it is.
proof fn lemma_recent_done_stays(
    hrefs: Seq<Seq<char>>,
    answers: Seq<Option<FileStat>>,
    limit: nat,
    n: nat,
    m: nat,
)
    requires
        n <= m,
        recent_done(recent_upto(hrefs, answers, limit, n), limit),
    ensures
        recent_upto(hrefs, answers, limit, m) == recent_upto(hrefs, answers, limit, n),
    decreases m - n,
{
    if m > n {
        lemma_recent_done_stays(hrefs, answers, limit, n, (m - 1) as nat);
    }
}

/// Recent files from the text of `recently-used.xbel` (when it could be
/// read), most recently visited first; see [`recent_from_hrefs`].
pub fn recent_files<S: Fn(&str) -> Option<FileStat>>(
    xbel_text: Option<&str>,
    limit: usize,
    stat: S,
) -> (out: Vec<RecentFile>)
    requires
        forall|s: &str| stat.requires((s,)),
    ensures
        match xbel_text {
            None => out.len() == 0,
            Some(t) => exists|hrefs: Seq<Seq<char>>|
                #[trigger] xbel_hrefs(t@, hrefs) && recent_result(
                    hrefs,
                    limit as nat,
                    stat,
                    out@.map_values(|r: RecentFile| recent_view(r)),
                ),
        },
{
    match xbel_text {
        None => Vec::new(),
        Some(t) => {
            let hrefs = parse_recently_used_xbel(t);
            let out = recent_from_hrefs(&hrefs, limit, stat);
            proof {
                assert(xbel_hrefs(t@, hrefs@.map_values(|h: String| h@)));
            }
            out
        },
    }
}

} // verus!
