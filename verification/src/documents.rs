//! Paths handed out by the document portal (`/run/user/UID/doc/...`).
//!
//! Asking the document portal for its mount point and for a document's host
//! path is D-Bus work done by the caller; what is decided from the answers
//! stands here.
use crate::fspath::{
    comps, dotdot, file_name, is_abs, join_path, parent, path_file_name, path_join,
    path_parent, render, strip_path, strip_path_prefix, components, is_absolute,
};
use crate::text::{ascii_bytes, from_utf8_lossy, utf8_lossy};
use vstd::prelude::*;

verus! {

/// What a request is about: a file or a folder.
#[derive(Clone, Copy, Debug, PartialEq, Eq, Structural)]
pub enum Entity {
    File,
    Folder,
}

/// `bytes` up to the first NUL, or all of them.
pub open spec fn before_nul(bytes: Seq<u8>) -> Seq<u8>
    decreases bytes.len(),
{
    if bytes.len() == 0 {
        bytes
    } else if bytes[0] == 0 {
        Seq::empty()
    } else {
        seq![bytes[0]] + before_nul(bytes.drop_first())
    }
}

/// The text of a byte-array path: the bytes before the first NUL, decoded
/// with invalid UTF-8 replaced.
pub open spec fn ay_path(bytes: Seq<u8>) -> Seq<char> {
    utf8_lossy(before_nul(bytes))
}

/// The first component of `cs` that is not `".."`.
pub open spec fn first_normal(cs: Seq<Seq<char>>) -> Option<Seq<char>>
    decreases cs.len(),
{
    if cs.len() == 0 {
        None
    } else if cs[0] != dotdot() {
        Some(cs[0])
    } else {
        first_normal(cs.drop_first())
    }
}

pub open spec fn by_app() -> Seq<char> {
    seq!['b', 'y', '-', 'a', 'p', 'p']
}

/// The document id of `path` under the mount point `mount`: the first
/// normal component below the mount, unless it is the `by-app` tree.
pub open spec fn doc_id_spec(path: Seq<char>, mount: Seq<char>) -> Option<Seq<char>> {
    match strip_path_prefix(path, mount) {
        Some(rest) => match first_normal(rest) {
            Some(id) => if id.len() == 0 || id == by_app() {
                None
            } else {
                Some(id)
            },
            None => None,
        },
        None => None,
    }
}

/// Where a document path leads once its host path is known. A folder
/// request browses the host path when it is a directory and its parent
/// otherwise; a file request keeps the file name of the document path under a
/// host directory.
pub open spec fn resolved_doc_spec(
    path: Seq<char>,
    host: Seq<char>,
    host_is_dir: bool,
    entity: Entity,
) -> Seq<char> {
    match entity {
        Entity::Folder => if host_is_dir {
            host
        } else {
            match parent(host) {
                Some(p) => p,
                None => host,
            }
        },
        Entity::File => if host_is_dir {
            match file_name(path) {
                Some(n) => join_path(host, n),
                None => host,
            }
        } else {
            host
        },
    }
}

/// The directories tried for an absolute path, in order: the path itself,
/// then its ancestors up to the root.
pub open spec fn dir_candidates(p: Seq<char>) -> Seq<Seq<char>> {
    if !is_abs(p) {
        Seq::empty()
    } else {
        let cs = comps(p);
        seq![p] + Seq::new(cs.len(), |k: int| render(true, cs.take(cs.len() - 1 - k)))
    }
}

/// The directories tried for an optional path; none without one.
pub open spec fn candidates_of(path: Option<&str>) -> Seq<Seq<char>> {
    match path {
        Some(p) => dir_candidates(p@),
        None => Seq::empty(),
    }
}

/// The document id of a path under the document portal's mount point; `None`
/// for paths outside it and for the `by-app` tree. Files and folders are
/// treated alike.
pub fn doc_id_for_path(path: &str, mount: &str, entity: Entity) -> (out: Option<String>)
    ensures
        match doc_id_spec(path@, mount@) {
            Some(id) => out matches Some(s) && s@ == id,
            None => out is None,
        },
{
    let rest = match strip_path(path, mount) {
        Some(r) => r,
        None => return None,
    };
    let ghost rs = rest@.map_values(|x: String| x@);
    proof {
        assert(rs.skip(0) =~= rs);
    }
    let mut i: usize = 0;
    while i < rest.len()
        invariant
            i <= rest.len(),
            rs == rest@.map_values(|x: String| x@),
            strip_path_prefix(path@, mount@) == Some(rs),
            first_normal(rs) == first_normal(rs.skip(i as int)),
        decreases rest.len() - i,
    {
        let ghost tail = rs.skip(i as int);
        proof {
            assert(tail[0] == rest@[i as int]@);
            assert(tail.drop_first() =~= rs.skip(i + 1));
        }
        let c = rest[i].as_str();
        let is_dd = crate::text::str_eq(c, "..");
        proof {
            reveal_strlit("..");
            assert(".."@ =~= dotdot());
        }
        if !is_dd {
            proof {
                assert(c@ == tail[0]);
                assert(tail[0] != dotdot());
                assert(first_normal(rs.skip(i as int)) == Some(c@));
            }
            let is_by_app = crate::text::str_eq(c, "by-app");
            proof {
                reveal_strlit("by-app");
                assert("by-app"@ =~= by_app());
            }
            if c.is_empty() || is_by_app {
                return None;
            }
            let id = rest[i].clone();
            proof {
                assert(id@ == c@);
            }
            return Some(id);
        }
        i += 1;
    }
    proof {
        assert(rs.skip(rest.len() as int).len() == 0);
    }
    None
}

/// A path received as a D-Bus byte array: the bytes before the first NUL,
/// decoded as UTF-8 with invalid sequences replaced. The path never holds a
/// NUL.
pub fn path_from_ay(bytes: &[u8]) -> (out: String)
    ensures
        out@ == ay_path(bytes@),
        !out@.contains('\0'),
        ascii_bytes(before_nul(bytes@)) ==> out@ == before_nul(bytes@).map_values(
            |x: u8| x as char,
        ),
{
    let mut kept: Vec<u8> = Vec::new();
    let mut i: usize = 0;
    proof {
        assert(bytes@.skip(0) =~= bytes@);
        assert(kept@ + before_nul(bytes@) =~= before_nul(bytes@));
    }
    while i < bytes.len() && bytes[i] != 0
        invariant
            i <= bytes.len(),
            kept@ == bytes@.take(i as int),
            forall|k: int| 0 <= k < i ==> bytes@[k] != 0,
            before_nul(bytes@) == kept@ + before_nul(bytes@.skip(i as int)),
        decreases bytes.len() - i,
    {
        proof {
            let t = bytes@.skip(i as int);
            assert(t[0] == bytes@[i as int]);
            assert(t.drop_first() =~= bytes@.skip(i + 1));
            assert(before_nul(t) == seq![t[0]] + before_nul(t.drop_first()));
            assert(kept@.push(bytes@[i as int]) + before_nul(bytes@.skip(i + 1)) =~= kept@ + (seq![
                t[0],
            ] + before_nul(t.drop_first())));
        }
        kept.push(bytes[i]);
        proof {
            assert(bytes@.take(i + 1) =~= bytes@.take(i as int).push(bytes@[i as int]));
        }
        i += 1;
    }
    proof {
        let t = bytes@.skip(i as int);
        assert(before_nul(t).len() == 0);
        assert(before_nul(bytes@) =~= kept@);
        assert forall|k: int| 0 <= k < kept@.len() implies kept@[k] != 0u8 by {
            assert(kept@[k] == bytes@[k]);
        }
    }
    from_utf8_lossy(kept.as_slice())
}

/// A byte-array path from the document portal, `None` when it is empty.
pub fn nonempty_path_from_ay(bytes: &[u8]) -> (out: Option<String>)
    ensures
        ay_path(bytes@).len() == 0 ==> out is None,
        ay_path(bytes@).len() > 0 ==> (out matches Some(s) && s@ == ay_path(bytes@)),
{
    let p = path_from_ay(bytes);
    if p.as_str().is_empty() {
        None
    } else {
        Some(p)
    }
}

/// Where a document path leads, given its host path and whether that host
/// path is a directory.
pub fn resolve_doc_path(path: &str, host: &str, host_is_dir: bool, entity: Entity) -> (out:
    String)
    ensures
        out@ == resolved_doc_spec(path@, host@, host_is_dir, entity),
{
    match entity {
        Entity::Folder => {
            if host_is_dir {
                host.to_owned()
            } else {
                match path_parent(host) {
                    Some(p) => p,
                    None => host.to_owned(),
                }
            }
        },
        Entity::File => {
            if host_is_dir {
                match path_file_name(path) {
                    Some(n) => path_join(host, n.as_str()),
                    None => host.to_owned(),
                }
            } else {
                host.to_owned()
            }
        },
    }
}

/// The directories to try for `path`, in order: none for a missing or
/// relative path; otherwise the path and then its ancestors up to the root.
pub fn existing_dir_candidates(path: Option<&str>) -> (out: Vec<String>)
    ensures
        out@.map_values(|s: String| s@) == candidates_of(path),
{
    let p = match path {
        Some(p) => p,
        None => return Vec::new(),
    };
    if !is_absolute(p) {
        return Vec::new();
    }
    let cs = components(p);
    let ghost m = cs@.map_values(|x: String| x@);
    let mut out: Vec<String> = Vec::new();
    out.push(p.to_owned());
    let mut n: usize = cs.len();
    let mut taken = cs;
    while n > 0
        invariant
            n <= m.len(),
            taken@.map_values(|x: String| x@) == m.take(n as int),
            m == comps(p@),
            out@.map_values(|s: String| s@) == seq![p@] + Seq::new(
                (m.len() - n) as nat,
                |k: int| render(true, m.take(m.len() - 1 - k)),
            ),
        decreases n,
    {
        let ghost before = out@.map_values(|s: String| s@);
        let ghost tm = taken@.map_values(|x: String| x@);
        taken.pop();
        n -= 1;
        proof {
            assert(taken@.map_values(|x: String| x@) =~= tm.drop_last());
            assert(tm.drop_last() =~= m.take(n as int));
        }
        let q = render_path(&taken);
        out.push(q);
        proof {
            let f = |k: int| render(true, m.take(m.len() - 1 - k));
            let l = (m.len() - n - 1) as nat;
            assert(Seq::new(l + 1, f) =~= Seq::new(l, f).push(f(l as int)));
            assert(f(l as int) == q@);
            assert(out@.map_values(|s: String| s@) =~= before.push(q@));
            assert(before.push(q@) =~= seq![p@] + Seq::new(l, f).push(q@));
        }
    }
    out
}

fn render_path(cs: &Vec<String>) -> (out: String)
    ensures
        out@ == render(true, cs@.map_values(|x: String| x@)),
{
    let body = crate::fspath::join_with(cs, "/");
    proof {
        reveal_strlit("/");
        assert("/"@ =~= seq!['/']);
    }
    crate::text::concat("/", body.as_str())
}

/// Whether a call of `is_dir` on the path `p` may have answered `answer`.
pub open spec fn answered<D: Fn(&str) -> bool>(is_dir: D, p: Seq<char>, answer: bool) -> bool {
    exists|s: &str| s@ == p && #[trigger] is_dir.ensures((s,), answer)
}

/// Whether `cands[i]` is the first candidate that `is_dir` called a
/// directory.
pub open spec fn first_dir<D: Fn(&str) -> bool>(is_dir: D, cands: Seq<Seq<char>>, i: int) -> bool {
    &&& 0 <= i < cands.len()
    &&& answered(is_dir, cands[i], true)
    &&& forall|j: int| 0 <= j < i ==> #[trigger] answered(is_dir, cands[j], false)
}

/// Picks an existing directory for `path`: the path itself when it is an
/// absolute directory, else its nearest ancestor that is one, else what
/// `fallback` gives. `is_dir` tells whether a path is a directory.
pub fn existing_dir<D: Fn(&str) -> bool, F: FnOnce() -> String>(
    path: Option<&str>,
    is_dir: D,
    fallback: F,
) -> (out: String)
    requires
        forall|s: &str| is_dir.requires((s,)),
        fallback.requires(()),
    ensures
        (exists|i: int|
            #[trigger] first_dir(is_dir, candidates_of(path), i) && out@ == candidates_of(path)[i])
            || (fallback.ensures((), out) && forall|j: int|
            0 <= j < candidates_of(path).len() ==> #[trigger] answered(
                is_dir,
                candidates_of(path)[j],
                false,
            )),
{
    let cands = existing_dir_candidates(path);
    let ghost cs = cands@.map_values(|s: String| s@);
    let mut i: usize = 0;
    while i < cands.len()
        invariant
            i <= cands.len(),
            cs == cands@.map_values(|s: String| s@),
            cs == candidates_of(path),
            forall|s: &str| is_dir.requires((s,)),
            forall|j: int| 0 <= j < i ==> #[trigger] answered(is_dir, cs[j], false),
        decreases cands.len() - i,
    {
        let c = cands[i].as_str();
        let d = is_dir(c);
        proof {
            assert(c@ == cs[i as int]);
            assert(answered(is_dir, cs[i as int], d));
        }
        if d {
            let found = cands[i].clone();
            proof {
                assert(found@ == cs[i as int]);
                assert(first_dir(is_dir, cs, i as int));
            }
            return found;
        }
        i += 1;
    }
    fallback()
}

} // verus!
