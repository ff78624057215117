//! Unix paths held as strings.
//!
//! A path is read as its list of components: the pieces between `'/'`
//! separators, leaving out empty pieces and `"."`. A path is absolute when it
//! starts with `'/'`. Two paths are the same path when both are absolute or
//! both relative and their components agree (as `PathBuf` equality does).
use crate::text::{
    chars_of, concat, first_index, index_of_from, join, lemma_first_index_bounds,
    lemma_first_index_is, push_str, split_all, string_of_range,
};
use vstd::prelude::*;

verus! {

pub open spec fn keep_comp(c: Seq<char>) -> bool {
    c.len() > 0 && c != seq!['.']
}

pub open spec fn keep_all(cs: Seq<Seq<char>>) -> Seq<Seq<char>>
    decreases cs.len(),
{
    if cs.len() == 0 {
        Seq::empty()
    } else if keep_comp(cs.last()) {
        keep_all(cs.drop_last()).push(cs.last())
    } else {
        keep_all(cs.drop_last())
    }
}

/// The components of a path.
pub open spec fn comps(p: Seq<char>) -> Seq<Seq<char>> {
    keep_all(split_all(p, '/'))
}

pub open spec fn is_abs(p: Seq<char>) -> bool {
    p.len() > 0 && p[0] == '/'
}

/// The text of a path with the given root flag and components.
pub open spec fn render(abs: bool, cs: Seq<Seq<char>>) -> Seq<char> {
    if abs {
        seq!['/'] + join(cs, seq!['/'])
    } else {
        join(cs, seq!['/'])
    }
}

pub open spec fn dotdot() -> Seq<char> {
    seq!['.', '.']
}

/// `Path::file_name`: the last component unless it is `".."`.
pub open spec fn file_name(p: Seq<char>) -> Option<Seq<char>> {
    let cs = comps(p);
    if cs.len() > 0 && cs.last() != dotdot() {
        Some(cs.last())
    } else {
        None
    }
}

/// `Path::parent`: the path without its last component.
pub open spec fn parent(p: Seq<char>) -> Option<Seq<char>> {
    let cs = comps(p);
    if cs.len() > 0 {
        Some(render(is_abs(p), cs.drop_last()))
    } else {
        None
    }
}

/// `PathBuf::join` (`push`): an absolute `rel` replaces the base; otherwise a
/// separator is put in between unless the base is empty or ends with one.
pub open spec fn join_path(base: Seq<char>, rel: Seq<char>) -> Seq<char> {
    if is_abs(rel) {
        rel
    } else if base.len() == 0 {
        rel
    } else if base.last() == '/' {
        base + rel
    } else {
        base + seq!['/'] + rel
    }
}

/// `PathBuf` equality.
pub open spec fn same_path(a: Seq<char>, b: Seq<char>) -> bool {
    is_abs(a) == is_abs(b) && comps(a) == comps(b)
}

/// `Path::strip_prefix`: the remaining components when `base`'s components
/// lead `p`'s and both have the same root.
pub open spec fn strip_path_prefix(p: Seq<char>, base: Seq<char>) -> Option<Seq<Seq<char>>> {
    let a = comps(p);
    let b = comps(base);
    if is_abs(p) == is_abs(base) && b.len() <= a.len() && a.subrange(0, b.len() as int) == b {
        Some(a.subrange(b.len() as int, a.len() as int))
    } else {
        None
    }
}

/// `Path::starts_with`.
pub open spec fn path_starts_with(p: Seq<char>, base: Seq<char>) -> bool {
    strip_path_prefix(p, base) is Some
}

/// Index of the dot that splits a file name into stem and extension, as
/// `Path::file_stem` / `Path::extension` do: the last dot, unless it is the
/// first character or the name is `".."`.
pub open spec fn last_index(s: Seq<char>, c: char) -> Option<int>
    decreases s.len(),
{
    if s.len() == 0 {
        None
    } else if s.last() == c {
        Some(s.len() - 1)
    } else {
        last_index(s.drop_last(), c)
    }
}

pub open spec fn ext_dot(name: Seq<char>) -> Option<int> {
    if name == dotdot() {
        None
    } else {
        match last_index(name, '.') {
            Some(i) => if i == 0 {
                None
            } else {
                Some(i)
            },
            None => None,
        }
    }
}

/// `Path::extension` of a file name.
pub open spec fn name_extension(name: Seq<char>) -> Option<Seq<char>> {
    match ext_dot(name) {
        Some(i) => Some(name.subrange(i + 1, name.len() as int)),
        None => None,
    }
}

/// `Path::file_stem` of a file name.
pub open spec fn name_stem(name: Seq<char>) -> Seq<char> {
    match ext_dot(name) {
        Some(i) => name.subrange(0, i),
        None => name,
    }
}

/// `Path::extension` of a path.
pub open spec fn extension(p: Seq<char>) -> Option<Seq<char>> {
    match file_name(p) {
        Some(n) => name_extension(n),
        None => None,
    }
}

pub proof fn lemma_last_index_bounds(s: Seq<char>, c: char)
    ensures
        last_index(s, c) matches Some(i) ==> 0 <= i < s.len() && s[i] == c && forall|k: int|
            i < k < s.len() ==> s[k] != c,
        last_index(s, c) is None ==> forall|k: int| 0 <= k < s.len() ==> s[k] != c,
    decreases s.len(),
{
    if s.len() > 0 && s.last() != c {
        lemma_last_index_bounds(s.drop_last(), c);
        assert forall|k: int| 0 <= k < s.len() - 1 implies s[k] == s.drop_last()[k] by {}
        assert(s[s.len() - 1] == s.last());
    }
}

pub proof fn lemma_split_all_len(s: Seq<char>, c: char)
    ensures
        split_all(s, c).len() >= 1,
    decreases s.len(),
{
    lemma_first_index_bounds(s, c);
    if let Some(i) = first_index(s, c) {
        lemma_split_all_len(s.subrange(i + 1, s.len() as int), c);
    }
}

// ---------------------------------------------------------------------------
// Executable operations
// ---------------------------------------------------------------------------
/// `s.split(c)` collected.
pub fn split_char(s: &str, c: char) -> (out: Vec<String>)
    ensures
        out@.map_values(|x: String| x@) == split_all(s@, c),
{
    let v = chars_of(s);
    let mut out: Vec<String> = Vec::new();
    let mut start: usize = 0;
    proof {
        assert(v@.subrange(0, v@.len() as int) =~= v@);
        assert(out@.map_values(|x: String| x@) + split_all(v@, c) =~= split_all(v@, c));
    }
    loop
        invariant
            start <= v.len(),
            v@ == s@,
            split_all(v@, c) == out@.map_values(|x: String| x@) + split_all(
                v@.subrange(start as int, v@.len() as int),
                c,
            ),
        decreases v.len() - start,
    {
        let ghost rest = v@.subrange(start as int, v@.len() as int);
        let ghost before = out@.map_values(|x: String| x@);
        match index_of_from(&v, start, c) {
            Some(i) => {
                let piece = string_of_range(&v, start, i);
                proof {
                    lemma_first_index_is(rest, c, i - start);
                    assert(rest.subrange(0, i - start) =~= piece@);
                    assert(rest.subrange(i - start + 1, rest.len() as int) =~= v@.subrange(
                        i + 1,
                        v@.len() as int,
                    ));
                }
                out.push(piece);
                proof {
                    assert(out@.map_values(|x: String| x@) =~= before.push(piece@));
                    assert(before.push(piece@) + split_all(v@.subrange(i + 1, v@.len() as int), c)
                        =~= before + (seq![piece@] + split_all(
                        v@.subrange(i + 1, v@.len() as int),
                        c,
                    )));
                }
                start = i + 1;
            },
            None => {
                let piece = string_of_range(&v, start, v.len());
                proof {
                    lemma_first_index_is(rest, c, rest.len() as int);
                }
                out.push(piece);
                proof {
                    assert(out@.map_values(|x: String| x@) =~= before.push(piece@));
                    assert(before + seq![rest] =~= before.push(piece@));
                }
                return out;
            },
        }
    }
}

/// Whether a piece is kept as a component.
pub fn is_kept(c: &String) -> (b: bool)
    ensures
        b == keep_comp(c@),
{
    let v = chars_of(c.as_str());
    let r = v.len() > 0 && !(v.len() == 1 && v[0] == '.');
    proof {
        if v.len() == 1 && v[0] == '.' {
            assert(c@ =~= seq!['.']);
        }
        if v.len() != 1 {
            assert(c@.len() != seq!['.'].len());
        }
    }
    r
}

/// The components of `p`.
pub fn components(p: &str) -> (out: Vec<String>)
    ensures
        out@.map_values(|x: String| x@) == comps(p@),
{
    let pieces = split_char(p, '/');
    let ghost all = pieces@.map_values(|x: String| x@);
    let mut out: Vec<String> = Vec::new();
    let mut i: usize = 0;
    while i < pieces.len()
        invariant
            i <= pieces.len(),
            all == pieces@.map_values(|x: String| x@),
            out@.map_values(|x: String| x@) == keep_all(all.take(i as int)),
        decreases pieces.len() - i,
    {
        let ghost before = out@.map_values(|x: String| x@);
        proof {
            assert(all.take(i + 1).drop_last() =~= all.take(i as int));
            assert(all.take(i + 1).last() == pieces@[i as int]@);
        }
        if is_kept(&pieces[i]) {
            out.push(pieces[i].clone());
            proof {
                assert(out@.map_values(|x: String| x@) =~= before.push(pieces@[i as int]@));
            }
        }
        i += 1;
    }
    proof {
        assert(all.take(pieces.len() as int) =~= all);
    }
    out
}

/// Joins the strings with `sep` in between.
pub fn join_with(parts: &Vec<String>, sep: &str) -> (out: String)
    ensures
        out@ == join(parts@.map_values(|x: String| x@), sep@),
{
    let ghost all = parts@.map_values(|x: String| x@);
    let mut out = String::new();
    let mut i: usize = 0;
    while i < parts.len()
        invariant
            i <= parts.len(),
            all == parts@.map_values(|x: String| x@),
            out@ == join(all.take(i as int), sep@),
        decreases parts.len() - i,
    {
        proof {
            assert(all.take(i + 1).drop_last() =~= all.take(i as int));
            assert(all.take(i + 1).last() == parts@[i as int]@);
        }
        if i > 0 {
            push_str(&mut out, sep);
        }
        push_str(&mut out, parts[i].as_str());
        proof {
            if i == 0 {
                assert(all.take(1).len() == 1);
                assert(out@ =~= join(all.take(1), sep@));
            }
        }
        i += 1;
    }
    proof {
        assert(all.take(parts.len() as int) =~= all);
    }
    out
}

pub fn is_absolute(p: &str) -> (b: bool)
    ensures
        b == is_abs(p@),
{
    let v = chars_of(p);
    v.len() > 0 && v[0] == '/'
}

pub(crate) fn render_exec(abs: bool, cs: &Vec<String>) -> (out: String)
    ensures
        out@ == render(abs, cs@.map_values(|x: String| x@)),
{
    proof {
        reveal_strlit("/");
        assert("/"@ =~= seq!['/']);
    }
    let body = join_with(cs, "/");
    if abs {
        concat("/", body.as_str())
    } else {
        body
    }
}

/// `Path::file_name`.
pub fn path_file_name(p: &str) -> (out: Option<String>)
    ensures
        match file_name(p@) {
            Some(n) => out matches Some(s) && s@ == n,
            None => out is None,
        },
{
    let cs = components(p);
    if cs.len() == 0 {
        return None;
    }
    let last = cs[cs.len() - 1].clone();
    let lv = chars_of(last.as_str());
    let is_dd = lv.len() == 2 && lv[0] == '.' && lv[1] == '.';
    proof {
        let ghost m = cs@.map_values(|x: String| x@);
        assert(m.last() == last@);
        if is_dd {
            assert(last@ =~= dotdot());
        } else if last@ == dotdot() {
            assert(lv@.len() == 2);
        }
    }
    if is_dd {
        None
    } else {
        Some(last)
    }
}

/// `Path::parent`.
pub fn path_parent(p: &str) -> (out: Option<String>)
    ensures
        match parent(p@) {
            Some(q) => out matches Some(s) && s@ == q,
            None => out is None,
        },
{
    let mut cs = components(p);
    if cs.len() == 0 {
        return None;
    }
    let ghost m = cs@.map_values(|x: String| x@);
    cs.pop();
    proof {
        assert(cs@.map_values(|x: String| x@) =~= m.drop_last());
    }
    let abs = is_absolute(p);
    Some(render_exec(abs, &cs))
}

/// `PathBuf::join`.
pub fn path_join(base: &str, rel: &str) -> (out: String)
    ensures
        out@ == join_path(base@, rel@),
{
    if is_absolute(rel) {
        return rel.to_owned();
    }
    let bv = chars_of(base);
    if bv.len() == 0 {
        return rel.to_owned();
    }
    if bv[bv.len() - 1] == '/' {
        concat(base, rel)
    } else {
        proof {
            reveal_strlit("/");
        }
        let with_sep = concat(base, "/");
        concat(with_sep.as_str(), rel)
    }
}

pub fn seq_eq_strings(a: &Vec<String>, b: &Vec<String>) -> (r: bool)
    ensures
        r == (a@.map_values(|x: String| x@) == b@.map_values(|x: String| x@)),
{
    let ghost ma = a@.map_values(|x: String| x@);
    let ghost mb = b@.map_values(|x: String| x@);
    if a.len() != b.len() {
        proof {
            if ma == mb {
                assert(ma.len() == mb.len());
            }
        }
        return false;
    }
    let mut i: usize = 0;
    while i < a.len()
        invariant
            i <= a.len(),
            a.len() == b.len(),
            ma == a@.map_values(|x: String| x@),
            mb == b@.map_values(|x: String| x@),
            forall|k: int| 0 <= k < i ==> ma[k] == mb[k],
        decreases a.len() - i,
    {
        if a[i] != b[i] {
            proof {
                assert(ma[i as int] != mb[i as int]);
            }
            return false;
        }
        i += 1;
    }
    proof {
        assert(ma =~= mb);
    }
    true
}

/// `PathBuf` equality.
pub fn paths_equal(a: &str, b: &str) -> (r: bool)
    ensures
        r == same_path(a@, b@),
{
    let ca = components(a);
    let cb = components(b);
    is_absolute(a) == is_absolute(b) && seq_eq_strings(&ca, &cb)
}

/// `Path::strip_prefix`, with the remaining components.
pub fn strip_path(p: &str, base: &str) -> (out: Option<Vec<String>>)
    ensures
        match strip_path_prefix(p@, base@) {
            Some(rest) => out matches Some(v) && v@.map_values(|x: String| x@) == rest,
            None => out is None,
        },
{
    let a = components(p);
    let b = components(base);
    let ghost ma = a@.map_values(|x: String| x@);
    let ghost mb = b@.map_values(|x: String| x@);
    proof {
        assert(ma.len() == a.len());
        assert(mb.len() == b.len());
    }
    if is_absolute(p) != is_absolute(base) || b.len() > a.len() {
        proof {
            assert(ma == comps(p@));
            assert(mb == comps(base@));
        }
        return None;
    }
    let mut i: usize = 0;
    while i < b.len()
        invariant
            i <= b.len() <= a.len(),
            ma == a@.map_values(|x: String| x@),
            mb == b@.map_values(|x: String| x@),
            ma == comps(p@),
            mb == comps(base@),
            is_abs(p@) == is_abs(base@),
            forall|k: int| 0 <= k < i ==> ma[k] == mb[k],
        decreases b.len() - i,
    {
        if a[i] != b[i] {
            proof {
                assert(a@[i as int]@ == ma[i as int]);
                assert(b@[i as int]@ == mb[i as int]);
                assert(ma.subrange(0, mb.len() as int)[i as int] != mb[i as int]);
            }
            return None;
        }
        i += 1;
    }
    proof {
        assert(ma.subrange(0, mb.len() as int) =~= mb);
    }
    let mut rest: Vec<String> = Vec::new();
    let mut j: usize = b.len();
    while j < a.len()
        invariant
            b.len() <= j <= a.len(),
            ma == a@.map_values(|x: String| x@),
            ma == comps(p@),
            mb == comps(base@),
            mb.len() == b.len(),
            is_abs(p@) == is_abs(base@),
            ma.subrange(0, mb.len() as int) == mb,
            rest@.map_values(|x: String| x@) == ma.subrange(b.len() as int, j as int),
        decreases a.len() - j,
    {
        let ghost before = rest@.map_values(|x: String| x@);
        rest.push(a[j].clone());
        proof {
            assert(a@[j as int]@ == ma[j as int]);
            assert(rest@.map_values(|x: String| x@) =~= before.push(a@[j as int]@));
            assert(ma.subrange(b.len() as int, j + 1) =~= ma.subrange(b.len() as int, j as int).push(
                ma[j as int],
            ));
        }
        j += 1;
    }
    Some(rest)
}

/// `Path::starts_with`.
pub fn path_starts_with_exec(p: &str, base: &str) -> (b: bool)
    ensures
        b == path_starts_with(p@, base@),
{
    strip_path(p, base).is_some()
}

/// Position of the last `c` in `v`.
pub fn last_index_of(v: &Vec<char>, c: char) -> (r: Option<usize>)
    ensures
        r matches Some(i) ==> last_index(v@, c) == Some(i as int) && i < v.len(),
        r is None ==> last_index(v@, c) is None,
{
    proof {
        lemma_last_index_bounds(v@, c);
    }
    let mut i: usize = v.len();
    proof {
        assert(v@.subrange(0, v@.len() as int) =~= v@);
    }
    while i > 0
        invariant
            i <= v.len(),
            last_index(v@, c) == last_index(v@.subrange(0, i as int), c),
        decreases i,
    {
        let ghost pre = v@.subrange(0, i as int);
        proof {
            assert(pre.last() == v@[i - 1]);
            assert(pre.drop_last() =~= v@.subrange(0, i - 1));
        }
        if v[i - 1] == c {
            return Some(i - 1);
        }
        i -= 1;
    }
    proof {
        assert(v@.subrange(0, 0).len() == 0);
    }
    None
}

/// Where a file name splits into stem and extension.
pub fn ext_dot_exec(name: &Vec<char>) -> (r: Option<usize>)
    ensures
        r matches Some(i) ==> ext_dot(name@) == Some(i as int) && i < name.len(),
        r is None ==> ext_dot(name@) is None,
{
    if name.len() == 2 && name[0] == '.' && name[1] == '.' {
        proof {
            assert(name@ =~= dotdot());
        }
        return None;
    }
    proof {
        if name@ == dotdot() {
            assert(name@.len() == 2);
            assert(name@[0] == dotdot()[0]);
            assert(name@[1] == dotdot()[1]);
        }
    }
    proof {
        lemma_last_index_bounds(name@, '.');
    }
    match last_index_of(name, '.') {
        Some(i) => if i == 0 {
            None
        } else {
            Some(i)
        },
        None => None,
    }
}

/// `Path::extension` of a path.
pub fn path_extension(p: &str) -> (out: Option<String>)
    ensures
        match extension(p@) {
            Some(e) => out matches Some(s) && s@ == e,
            None => out is None,
        },
{
    match path_file_name(p) {
        Some(n) => {
            let v = chars_of(n.as_str());
            proof {
                assert(file_name(p@) == Some(v@));
            }
            match ext_dot_exec(&v) {
                Some(i) => {
                    let e = string_of_range(&v, i + 1, v.len());
                    proof {
                        assert(ext_dot(v@) == Some(i as int));
                        assert(name_extension(v@) == Some(e@));
                    }
                    Some(e)
                },
                None => {
                    proof {
                        assert(ext_dot(v@) is None);
                    }
                    None
                },
            }
        },
        None => None,
    }
}

} // verus!
