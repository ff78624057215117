//! File-chooser filters: globs (through the `glob` crate) and MIME types
//! (through `mime_guess`).
use crate::fspath::{file_name, path_file_name};
use crate::order::{sort_by_keys, sorted_by_keys};
use crate::text::{
    char_key, concat, eq_ignore_ascii_case, eq_ignore_case, has_prefix, has_suffix, starts_with,
    str_eq, strip_suffix,
};
use vstd::prelude::*;

verus! {

/// A named filter, as the portal's `(sa(us))` describes it.
#[derive(Clone, Debug, PartialEq, Eq)]
pub struct FileFilter {
    pub label: String,
    pub patterns: Vec<FilterPattern>,
}

/// A shell glob on the file name, or a MIME type (`image/*` allowed).
#[derive(Clone, Debug, PartialEq, Eq)]
pub enum FilterPattern {
    Glob(String),
    Mime(String),
}

/// The abstract value of a [`FilterPattern`].
pub enum PatternSpec {
    Glob(Seq<char>),
    Mime(Seq<char>),
}

impl View for FilterPattern {
    type V = PatternSpec;

    open spec fn view(&self) -> PatternSpec {
        match self {
            FilterPattern::Glob(s) => PatternSpec::Glob(s@),
            FilterPattern::Mime(s) => PatternSpec::Mime(s@),
        }
    }
}

pub open spec fn patterns_view(ps: Seq<FilterPattern>) -> Seq<PatternSpec> {
    ps.map_values(|p: FilterPattern| p@)
}

/// The portal's `(kind, value)` pairs.
pub open spec fn portal_pairs_view(ps: Seq<(u32, String)>) -> Seq<(u32, Seq<char>)> {
    ps.map_values(|p: (u32, String)| (p.0, p.1@))
}

/// Kind 0 is a glob, kind 1 a MIME type; other kinds are dropped.
pub open spec fn pattern_of_pair(p: (u32, Seq<char>)) -> Option<PatternSpec> {
    if p.0 == 0 {
        Some(PatternSpec::Glob(p.1))
    } else if p.0 == 1 {
        Some(PatternSpec::Mime(p.1))
    } else {
        None
    }
}

pub open spec fn pair_of_pattern(p: PatternSpec) -> (u32, Seq<char>) {
    match p {
        PatternSpec::Glob(v) => (0, v),
        PatternSpec::Mime(v) => (1, v),
    }
}

pub open spec fn patterns_from_pairs(ps: Seq<(u32, Seq<char>)>) -> Seq<PatternSpec>
    decreases ps.len(),
{
    if ps.len() == 0 {
        Seq::empty()
    } else {
        match pattern_of_pair(ps.last()) {
            Some(p) => patterns_from_pairs(ps.drop_last()).push(p),
            None => patterns_from_pairs(ps.drop_last()),
        }
    }
}

pub open spec fn known_pairs(ps: Seq<(u32, Seq<char>)>) -> Seq<(u32, Seq<char>)>
    decreases ps.len(),
{
    if ps.len() == 0 {
        Seq::empty()
    } else if ps.last().0 <= 1 {
        known_pairs(ps.drop_last()).push(ps.last())
    } else {
        known_pairs(ps.drop_last())
    }
}

// ---------------------------------------------------------------------------
// Outside calls
// ---------------------------------------------------------------------------
/// Whether the `glob` crate compiles `pattern` and matches `name` with it.
pub uninterp spec fn glob_accepts(pattern: Seq<char>, name: Seq<char>) -> bool;

/// The first MIME type `mime_guess` guesses for a path, as its essence
/// string.
pub uninterp spec fn mime_guess_first(path: Seq<char>) -> Option<Seq<char>>;

/// The extensions `mime_guess` lists for a MIME type.
pub uninterp spec fn mime_extensions(mime: Seq<char>) -> Option<Seq<Seq<char>>>;

/// `glob::Pattern::new(pattern)` then `Pattern::matches(name)`; an invalid
/// pattern matches nothing. The result is named, not described.
#[verifier::external_body]
fn glob_match_name(pattern: &str, name: &str) -> (r: bool)
    ensures
        r == glob_accepts(pattern@, name@),
{
    glob::Pattern::new(pattern).map(|p| p.matches(name)).unwrap_or(false)
}

/// `mime_guess::from_path(path).first()` as its essence string. The result
/// is named, not described.
#[verifier::external_body]
pub(crate) fn guess_mime(path: &str) -> (r: Option<String>)
    ensures
        match mime_guess_first(path@) {
            Some(m) => r matches Some(x) && x@ == m,
            None => r is None,
        },
{
    mime_guess::from_path(path).first().map(|m| m.essence_str().to_string())
}

/// `mime_guess::get_mime_extensions_str(mime)` with the extensions copied
/// into `String`s. The result is named, not described.
#[verifier::external_body]
fn extensions_for_mime(mime: &str) -> (r: Option<Vec<String>>)
    ensures
        match mime_extensions(mime@) {
            Some(es) => r matches Some(v) && v@.map_values(|x: String| x@) == es,
            None => r is None,
        },
{
    mime_guess::get_mime_extensions_str(mime).map(|exts| exts.iter().map(|e| e.to_string()).collect())
}

// ---------------------------------------------------------------------------
// Matching
// ---------------------------------------------------------------------------
pub open spec fn star() -> Seq<char> {
    seq!['*']
}

/// A glob on the file name of `path`; `"*"` and `"*.*"` match every path.
pub open spec fn glob_matches_spec(pat: Seq<char>, path: Seq<char>) -> bool {
    if pat == star() || pat == seq!['*', '.', '*'] {
        true
    } else {
        glob_accepts(
            pat,
            match file_name(path) {
                Some(n) => n,
                None => Seq::empty(),
            },
        )
    }
}

pub open spec fn octet_stream() -> Seq<char> {
    "application/octet-stream"@
}

/// A MIME pattern against the type guessed from the path's extension:
/// `*/*` matches everything, `top/*` every type under `top/`, anything else
/// the type itself, ignoring ASCII case.
pub open spec fn mime_matches_spec(mime: Seq<char>, path: Seq<char>) -> bool {
    let guessed = match mime_guess_first(path) {
        Some(m) => m,
        None => octet_stream(),
    };
    if mime == seq!['*', '/', '*'] {
        true
    } else if has_suffix(mime, seq!['/', '*']) {
        has_prefix(guessed, mime.subrange(0, mime.len() - 2).push('/'))
    } else {
        eq_ignore_case(guessed, mime)
    }
}

pub open spec fn pattern_matches(p: PatternSpec, path: Seq<char>) -> bool {
    match p {
        PatternSpec::Glob(g) => glob_matches_spec(g, path),
        PatternSpec::Mime(m) => mime_matches_spec(m, path),
    }
}

/// A filter without patterns admits every path; otherwise one pattern must
/// match.
pub open spec fn filter_matches(ps: Seq<PatternSpec>, path: Seq<char>) -> bool {
    ps.len() == 0 || exists|i: int| 0 <= i < ps.len() && pattern_matches(#[trigger] ps[i], path)
}

fn glob_matches(pat: &str, path: &str) -> (b: bool)
    ensures
        b == glob_matches_spec(pat@, path@),
{
    proof {
        reveal_strlit("*");
        reveal_strlit("*.*");
        assert("*"@ =~= star());
        assert("*.*"@ =~= seq!['*', '.', '*']);
    }
    if str_eq(pat, "*") || str_eq(pat, "*.*") {
        return true;
    }
    let name = match path_file_name(path) {
        Some(n) => n,
        None => String::new(),
    };
    glob_match_name(pat, name.as_str())
}

fn mime_matches(mime: &str, path: &str) -> (b: bool)
    ensures
        b == mime_matches_spec(mime@, path@),
{
    proof {
        reveal_strlit("*/*");
        reveal_strlit("/*");
        reveal_strlit("/");
        reveal_strlit("application/octet-stream");
        assert("*/*"@ =~= seq!['*', '/', '*']);
        assert("/*"@ =~= seq!['/', '*']);
    }
    if str_eq(mime, "*/*") {
        return true;
    }
    let guessed = match guess_mime(path) {
        Some(m) => m,
        None => "application/octet-stream".to_owned(),
    };
    match strip_suffix(mime, "/*") {
        Some(prefix) => {
            let with_slash = concat(prefix.as_str(), "/");
            proof {
                assert(with_slash@ =~= mime@.subrange(0, mime@.len() - 2).push('/'));
            }
            starts_with(guessed.as_str(), with_slash.as_str())
        },
        None => eq_ignore_ascii_case(guessed.as_str(), mime),
    }
}

impl FilterPattern {
    pub fn matches(&self, path: &str) -> (b: bool)
        ensures
            b == pattern_matches(self@, path@),
    {
        match self {
            FilterPattern::Glob(pat) => glob_matches(pat.as_str(), path),
            FilterPattern::Mime(mime) => mime_matches(mime.as_str(), path),
        }
    }

    pub fn clone_pattern(&self) -> (r: FilterPattern)
        ensures
            r@ == self@,
    {
        match self {
            FilterPattern::Glob(s) => FilterPattern::Glob(s.clone()),
            FilterPattern::Mime(s) => FilterPattern::Mime(s.clone()),
        }
    }
}

impl FileFilter {
    pub open spec fn patterns_spec(&self) -> Seq<PatternSpec> {
        patterns_view(self.patterns@)
    }

    /// Builds a filter from the portal's `(kind, value)` pairs: kind 0 is a
    /// glob, kind 1 a MIME type, other kinds are ignored.
    pub fn from_portal(label: String, patterns: Vec<(u32, String)>) -> (f: FileFilter)
        ensures
            f.label@ == label@,
            f.patterns_spec() == patterns_from_pairs(portal_pairs_view(patterns@)),
    {
        let ghost pv = portal_pairs_view(patterns@);
        let mut out: Vec<FilterPattern> = Vec::new();
        let mut i: usize = 0;
        proof {
            assert(pv.take(0) =~= Seq::<(u32, Seq<char>)>::empty());
            assert(patterns_view(out@) =~= Seq::<PatternSpec>::empty());
        }
        while i < patterns.len()
            invariant
                i <= patterns.len(),
                pv == portal_pairs_view(patterns@),
                patterns_view(out@) == patterns_from_pairs(pv.take(i as int)),
            decreases patterns.len() - i,
        {
            proof {
                assert(pv.take(i + 1).drop_last() =~= pv.take(i as int));
                assert(pv.take(i + 1).last() == (patterns@[i as int].0, patterns@[i as int].1@));
            }
            let ghost before = patterns_view(out@);
            let kind = patterns[i].0;
            if kind == 0 {
                out.push(FilterPattern::Glob(patterns[i].1.clone()));
            } else if kind == 1 {
                out.push(FilterPattern::Mime(patterns[i].1.clone()));
            }
            proof {
                if kind <= 1 {
                    assert(patterns_view(out@) =~= before.push(
                        pattern_of_pair(pv[i as int]).unwrap(),
                    ));
                }
            }
            i += 1;
        }
        proof {
            assert(pv.take(patterns.len() as int) =~= pv);
        }
        FileFilter { label, patterns: out }
    }

    /// Whether `path` passes this filter.
    pub fn matches(&self, path: &str) -> (b: bool)
        ensures
            b == filter_matches(self.patterns_spec(), path@),
    {
        let ghost ps = self.patterns_spec();
        if self.patterns.len() == 0 {
            return true;
        }
        let mut i: usize = 0;
        while i < self.patterns.len()
            invariant
                i <= self.patterns.len(),
                ps == self.patterns_spec(),
                forall|k: int| 0 <= k < i ==> !pattern_matches(#[trigger] ps[k], path@),
            decreases self.patterns.len() - i,
        {
            if self.patterns[i].matches(path) {
                proof {
                    assert(ps[i as int] == self.patterns@[i as int]@);
                }
                return true;
            }
            proof {
                assert(ps[i as int] == self.patterns@[i as int]@);
            }
            i += 1;
        }
        false
    }

    /// The portal's `(label, [(kind, value)])` form.
    pub fn to_portal(&self) -> (out: (String, Vec<(u32, String)>))
        ensures
            out.0@ == self.label@,
            portal_pairs_view(out.1@) == self.patterns_spec().map_values(
                |p: PatternSpec| pair_of_pattern(p),
            ),
    {
        let ghost ps = self.patterns_spec();
        let mut out: Vec<(u32, String)> = Vec::new();
        let mut i: usize = 0;
        while i < self.patterns.len()
            invariant
                i <= self.patterns.len(),
                ps == self.patterns_spec(),
                portal_pairs_view(out@) == ps.take(i as int).map_values(
                    |p: PatternSpec| pair_of_pattern(p),
                ),
            decreases self.patterns.len() - i,
        {
            let ghost before = portal_pairs_view(out@);
            match &self.patterns[i] {
                FilterPattern::Glob(v) => out.push((0u32, v.clone())),
                FilterPattern::Mime(v) => out.push((1u32, v.clone())),
            }
            proof {
                assert(ps[i as int] == self.patterns@[i as int]@);
                assert(portal_pairs_view(out@) =~= before.push(pair_of_pattern(ps[i as int])));
                assert(ps.take(i + 1).map_values(|p: PatternSpec| pair_of_pattern(p)) =~= ps.take(
                    i as int,
                ).map_values(|p: PatternSpec| pair_of_pattern(p)).push(pair_of_pattern(ps[i as int])));
            }
            i += 1;
        }
        proof {
            assert(ps.take(self.patterns.len() as int) =~= ps);
        }
        (self.label.clone(), out)
    }

}

/// The patterns `*` and `*.*` match every path, and so does the MIME
/// pattern `*/*`; any other glob is decided by the path's file name alone.
pub proof fn law_wildcards_and_file_names(g: Seq<char>, p1: Seq<char>, p2: Seq<char>)
    ensures
        pattern_matches(PatternSpec::Glob(seq!['*']), p1),
        pattern_matches(PatternSpec::Glob(seq!['*', '.', '*']), p1),
        pattern_matches(PatternSpec::Mime(seq!['*', '/', '*']), p1),
        file_name(p1) == file_name(p2) ==> pattern_matches(PatternSpec::Glob(g), p1) == pattern_matches(
            PatternSpec::Glob(g),
            p2,
        ),
{
}

/// A MIME pattern without a wildcard subtype matches exactly the files
/// whose guessed type is that type, in any ASCII case (a file with no
/// guess counts as `application/octet-stream`); a pattern `top/*` matches
/// exactly the files whose guessed type starts with `top/`.
pub proof fn law_mime_patterns(m: Seq<char>, p: Seq<char>)
    ensures
        !has_suffix(m, seq!['/', '*']) ==> (mime_guess_first(p) == Some(m) ==> pattern_matches(
            PatternSpec::Mime(m),
            p,
        )),
        !has_suffix(m, seq!['/', '*']) ==> (mime_guess_first(p) matches Some(g) ==> (pattern_matches(
            PatternSpec::Mime(m),
            p,
        ) <==> crate::text::lower_seq(g) == crate::text::lower_seq(m))),
        !has_suffix(m, seq!['/', '*']) && mime_guess_first(p) is None ==> (pattern_matches(
            PatternSpec::Mime(m),
            p,
        ) <==> crate::text::lower_seq(m) == crate::text::lower_seq(octet_stream())),
        has_suffix(m, seq!['/', '*']) && m != seq!['*', '/', '*'] ==> (mime_guess_first(p) matches Some(g) ==> (
        pattern_matches(PatternSpec::Mime(m), p) <==> has_prefix(g, m.subrange(0, m.len() - 1)))),
{
    if has_suffix(m, seq!['/', '*']) {
        assert(m.subrange(0, m.len() - 2).push('/') =~= m.subrange(0, m.len() - 1));
    } else {
        assert(m != seq!['*', '/', '*']) by {
            if m == seq!['*', '/', '*'] {
                assert(m.subrange(1, 3) =~= seq!['/', '*']);
            }
        }
    }
}

/// Converting portal pairs to a filter and back keeps the pairs of the two
/// known kinds, in order, and drops the others.
pub proof fn law_portal_roundtrip(ps: Seq<(u32, Seq<char>)>)
    ensures
        patterns_from_pairs(ps).map_values(|p: PatternSpec| pair_of_pattern(p)) == known_pairs(ps),
    decreases ps.len(),
{
    if ps.len() > 0 {
        law_portal_roundtrip(ps.drop_last());
        let prev = patterns_from_pairs(ps.drop_last());
        match pattern_of_pair(ps.last()) {
            Some(p) => {
                assert(prev.push(p).map_values(|p: PatternSpec| pair_of_pattern(p)) =~= prev.map_values(
                    |p: PatternSpec| pair_of_pattern(p),
                ).push(pair_of_pattern(p)));
                assert(pair_of_pattern(p) == ps.last());
            },
            None => {},
        }
    } else {
        assert(patterns_from_pairs(ps).map_values(|p: PatternSpec| pair_of_pattern(p)) =~= Seq::<
            (u32, Seq<char>),
        >::empty());
    }
}

/// Two filters are equal when labels and patterns agree.
pub fn filters_equal(a: &FileFilter, b: &FileFilter) -> (r: bool)
    ensures
        r == (a.label@ == b.label@ && a.patterns_spec() == b.patterns_spec()),
{
    if a.label != b.label {
        return false;
    }
    let ghost pa = a.patterns_spec();
    let ghost pb = b.patterns_spec();
    if a.patterns.len() != b.patterns.len() {
        proof {
            if pa == pb {
                assert(pa.len() == pb.len());
            }
        }
        return false;
    }
    let mut i: usize = 0;
    while i < a.patterns.len()
        invariant
            i <= a.patterns.len() == b.patterns.len(),
            pa == a.patterns_spec(),
            pb == b.patterns_spec(),
            forall|k: int| 0 <= k < i ==> pa[k] == pb[k],
        decreases a.patterns.len() - i,
    {
        let same = match (&a.patterns[i], &b.patterns[i]) {
            (FilterPattern::Glob(x), FilterPattern::Glob(y)) => *x == *y,
            (FilterPattern::Mime(x), FilterPattern::Mime(y)) => *x == *y,
            _ => false,
        };
        proof {
            assert(pa[i as int] == a.patterns@[i as int]@);
            assert(pb[i as int] == b.patterns@[i as int]@);
        }
        if !same {
            return false;
        }
        i += 1;
    }
    proof {
        assert(pa =~= pb);
    }
    true
}

// ---------------------------------------------------------------------------
// Globs for pickers that only understand name patterns
// ---------------------------------------------------------------------------
pub open spec fn ext_globs(exts: Seq<Seq<char>>) -> Seq<Seq<char>> {
    exts.map_values(|e: Seq<char>| seq!['*', '.'] + e)
}

pub open spec fn image_exts() -> Seq<Seq<char>> {
    seq![
        "png"@,
        "jpg"@,
        "jpeg"@,
        "gif"@,
        "webp"@,
        "bmp"@,
        "svg"@,
        "tif"@,
        "tiff"@,
        "avif"@,
        "jxl"@,
        "heic"@,
        "ico"@,
    ]
}

pub open spec fn audio_exts() -> Seq<Seq<char>> {
    seq!["mp3"@, "wav"@, "flac"@, "ogg"@, "m4a"@, "aac"@, "opus"@, "wma"@, "oga"@]
}

pub open spec fn video_exts() -> Seq<Seq<char>> {
    seq!["mp4"@, "mkv"@, "webm"@, "avi"@, "mov"@, "m4v"@, "wmv"@, "ogv"@]
}

pub open spec fn text_exts() -> Seq<Seq<char>> {
    seq![
        "txt"@,
        "md"@,
        "csv"@,
        "json"@,
        "xml"@,
        "html"@,
        "htm"@,
        "css"@,
        "js"@,
        "rs"@,
        "py"@,
        "toml"@,
        "ini"@,
        "log"@,
    ]
}

/// Globs for `top/*`: a fixed extension list for the common top-level types,
/// `"*"` for any other.
pub open spec fn wildcard_globs(top: Seq<char>) -> Seq<Seq<char>> {
    if top == "image"@ {
        ext_globs(image_exts())
    } else if top == "audio"@ {
        ext_globs(audio_exts())
    } else if top == "video"@ {
        ext_globs(video_exts())
    } else if top == "text"@ {
        ext_globs(text_exts())
    } else {
        seq![star()]
    }
}

/// Globs that stand for a MIME type.
pub open spec fn mime_globs(mime: Seq<char>) -> Seq<Seq<char>> {
    if mime.len() == 0 || mime == seq!['*', '/', '*'] {
        seq![star()]
    } else if has_suffix(mime, seq!['/', '*']) {
        wildcard_globs(mime.subrange(0, mime.len() - 2))
    } else {
        match mime_extensions(mime) {
            Some(es) => ext_globs(es),
            None => Seq::empty(),
        }
    }
}

fn ext_globs_exec(exts: &Vec<String>) -> (out: Vec<String>)
    ensures
        out@.map_values(|s: String| s@) == ext_globs(exts@.map_values(|s: String| s@)),
{
    proof {
        reveal_strlit("*.");
        assert("*."@ =~= seq!['*', '.']);
    }
    let ghost ev = exts@.map_values(|s: String| s@);
    let mut out: Vec<String> = Vec::new();
    let mut i: usize = 0;
    while i < exts.len()
        invariant
            i <= exts.len(),
            ev == exts@.map_values(|s: String| s@),
            "*."@ == seq!['*', '.'],
            out@.map_values(|s: String| s@) == ext_globs(ev.take(i as int)),
        decreases exts.len() - i,
    {
        let ghost before = out@.map_values(|s: String| s@);
        let g = concat("*.", exts[i].as_str());
        out.push(g);
        proof {
            assert(out@.map_values(|s: String| s@) =~= before.push(g@));
            assert(ext_globs(ev.take(i + 1)) =~= ext_globs(ev.take(i as int)).push(
                seq!['*', '.'] + ev[i as int],
            ));
        }
        i += 1;
    }
    proof {
        assert(ev.take(exts.len() as int) =~= ev);
    }
    out
}

fn strings(v: &[&str]) -> (out: Vec<String>)
    ensures
        out@.map_values(|s: String| s@) == v@.map_values(|s: &str| s@),
{
    let mut out: Vec<String> = Vec::new();
    let mut i: usize = 0;
    while i < v.len()
        invariant
            i <= v.len(),
            out@.map_values(|s: String| s@) == v@.take(i as int).map_values(|s: &str| s@),
        decreases v.len() - i,
    {
        let ghost before = out@.map_values(|s: String| s@);
        out.push(v[i].to_owned());
        proof {
            assert(out@.map_values(|s: String| s@) =~= before.push(v@[i as int]@));
            assert(v@.take(i + 1).map_values(|s: &str| s@) =~= v@.take(i as int).map_values(
                |s: &str| s@,
            ).push(v@[i as int]@));
        }
        i += 1;
    }
    proof {
        assert(v@.take(v@.len() as int) =~= v@);
    }
    out
}

pub fn wildcard_mime_globs(top: &str) -> (out: Vec<String>)
    ensures
        out@.map_values(|s: String| s@) == wildcard_globs(top@),
{
    proof {
        reveal_strlit("image");
        reveal_strlit("audio");
        reveal_strlit("video");
        reveal_strlit("text");
        reveal_strlit("*");
        assert("*"@ =~= star());
    }
    let exts: Vec<String> = if str_eq(top, "image") {
        let a = ["png", "jpg", "jpeg", "gif", "webp", "bmp", "svg", "tif", "tiff", "avif", "jxl", "heic", "ico"];
        let v = strings(&a);
        proof {
            assert(a@.map_values(|s: &str| s@) =~= image_exts());
        }
        v
    } else if str_eq(top, "audio") {
        let a = ["mp3", "wav", "flac", "ogg", "m4a", "aac", "opus", "wma", "oga"];
        let v = strings(&a);
        proof {
            assert(a@.map_values(|s: &str| s@) =~= audio_exts());
        }
        v
    } else if str_eq(top, "video") {
        let a = ["mp4", "mkv", "webm", "avi", "mov", "m4v", "wmv", "ogv"];
        let v = strings(&a);
        proof {
            assert(a@.map_values(|s: &str| s@) =~= video_exts());
        }
        v
    } else if str_eq(top, "text") {
        let a = ["txt", "md", "csv", "json", "xml", "html", "htm", "css", "js", "rs", "py", "toml", "ini", "log"];
        let v = strings(&a);
        proof {
            assert(a@.map_values(|s: &str| s@) =~= text_exts());
        }
        v
    } else {
        let mut v: Vec<String> = Vec::new();
        v.push("*".to_owned());
        proof {
            assert(v@.map_values(|s: String| s@) =~= seq![star()]);
        }
        return v;
    };
    ext_globs_exec(&exts)
}

pub fn globs_for_mime(mime: &str) -> (out: Vec<String>)
    ensures
        out@.map_values(|s: String| s@) == mime_globs(mime@),
{
    proof {
        reveal_strlit("*/*");
        reveal_strlit("/*");
        reveal_strlit("*");
        assert("*/*"@ =~= seq!['*', '/', '*']);
        assert("/*"@ =~= seq!['/', '*']);
        assert("*"@ =~= star());
    }
    if mime.is_empty() || str_eq(mime, "*/*") {
        let mut v: Vec<String> = Vec::new();
        v.push("*".to_owned());
        proof {
            assert(v@.map_values(|s: String| s@) =~= seq![star()]);
        }
        return v;
    }
    match strip_suffix(mime, "/*") {
        Some(top) => wildcard_mime_globs(top.as_str()),
        None => match extensions_for_mime(mime) {
            Some(exts) => ext_globs_exec(&exts),
            None => {
                let v: Vec<String> = Vec::new();
                proof {
                    assert(v@.map_values(|s: String| s@) =~= Seq::<Seq<char>>::empty());
                }
                v
            },
        },
    }
}

/// The globs gathered from the patterns, before sorting: non-empty globs as
/// they are, MIME types expanded.
pub open spec fn gathered_globs(ps: Seq<PatternSpec>) -> Seq<Seq<char>>
    decreases ps.len(),
{
    if ps.len() == 0 {
        Seq::empty()
    } else {
        gathered_globs(ps.drop_last()) + match ps.last() {
            PatternSpec::Glob(g) => if g.len() > 0 {
                seq![g]
            } else {
                Seq::empty()
            },
            PatternSpec::Mime(m) => mime_globs(m),
        }
    }
}

/// Drops every element equal to the one before it (`Vec::dedup`).
pub open spec fn dedup(s: Seq<Seq<char>>) -> Seq<Seq<char>>
    decreases s.len(),
{
    if s.len() <= 1 {
        s
    } else if s.last() == s[s.len() - 2] {
        dedup(s.drop_last())
    } else {
        dedup(s.drop_last()).push(s.last())
    }
}

pub open spec fn code_key(s: Seq<char>) -> Seq<u64> {
    s.map_values(|c: char| c as u64)
}

fn dedup_exec(v: Vec<String>) -> (out: Vec<String>)
    ensures
        out@.map_values(|s: String| s@) == dedup(v@.map_values(|s: String| s@)),
{
    let ghost vv = v@.map_values(|s: String| s@);
    let mut out: Vec<String> = Vec::new();
    let mut i: usize = 0;
    while i < v.len()
        invariant
            i <= v.len(),
            vv == v@.map_values(|s: String| s@),
            out@.map_values(|s: String| s@) == dedup(vv.take(i as int)),
            i > 0 ==> out.len() > 0 && out@.last()@ == vv[i - 1],
        decreases v.len() - i,
    {
        let ghost before = out@.map_values(|s: String| s@);
        let ghost t = vv.take(i + 1);
        proof {
            assert(t.drop_last() =~= vv.take(i as int));
            assert(t.last() == vv[i as int]);
            if i > 0 {
                assert(t[t.len() - 2] == vv[i - 1]);
            }
        }
        if i == 0 || v[i - 1] != v[i] {
            out.push(v[i].clone());
            proof {
                assert(out@.map_values(|s: String| s@) =~= before.push(vv[i as int]));
                if i == 0 {
                    assert(t =~= seq![vv[0]]);
                    assert(before =~= Seq::<Seq<char>>::empty());
                }
            }
        } else {
            proof {
                assert(vv[i - 1] == v@[i - 1]@);
            }
        }
        i += 1;
    }
    proof {
        assert(vv.take(v.len() as int) =~= vv);
    }
    out
}

impl FileFilter {
    /// Globs a name-only picker can apply: globs as given and MIME types
    /// expanded to extensions, sorted, without repeats; `["*"]` when none.
    pub fn globs(&self) -> (out: Vec<String>)
        ensures
            ({
                let g = gathered_globs(self.patterns_spec());
                ||| g.len() == 0 && out@.map_values(|s: String| s@) == seq![star()]
                ||| g.len() > 0 && exists|sorted: Seq<Seq<char>>|
                    sorted_by_keys(sorted, g, g.map_values(|s: Seq<char>| code_key(s)), false)
                        && out@.map_values(|s: String| s@) == dedup(sorted)
            }),
    {
        let ghost ps = self.patterns_spec();
        let mut out: Vec<String> = Vec::new();
        let mut i: usize = 0;
        while i < self.patterns.len()
            invariant
                i <= self.patterns.len(),
                ps == self.patterns_spec(),
                out@.map_values(|s: String| s@) == gathered_globs(ps.take(i as int)),
            decreases self.patterns.len() - i,
        {
            let ghost before = out@.map_values(|s: String| s@);
            proof {
                assert(ps.take(i + 1).drop_last() =~= ps.take(i as int));
                assert(ps.take(i + 1).last() == self.patterns@[i as int]@);
            }
            match &self.patterns[i] {
                FilterPattern::Glob(g) => {
                    if !g.as_str().is_empty() {
                        out.push(g.clone());
                        proof {
                            assert(out@.map_values(|s: String| s@) =~= before + seq![g@]);
                        }
                    } else {
                        proof {
                            assert(before + Seq::<Seq<char>>::empty() =~= before);
                        }
                    }
                },
                FilterPattern::Mime(m) => {
                    let more = globs_for_mime(m.as_str());
                    let ghost mv = more@.map_values(|s: String| s@);
                    let mut j: usize = 0;
                    while j < more.len()
                        invariant
                            j <= more.len(),
                            mv == more@.map_values(|s: String| s@),
                            out@.map_values(|s: String| s@) == before + mv.take(j as int),
                        decreases more.len() - j,
                    {
                        let ghost b2 = out@.map_values(|s: String| s@);
                        out.push(more[j].clone());
                        proof {
                            assert(out@.map_values(|s: String| s@) =~= b2.push(mv[j as int]));
                            assert(mv.take(j + 1) =~= mv.take(j as int).push(mv[j as int]));
                        }
                        j += 1;
                    }
                    proof {
                        assert(mv.take(more.len() as int) =~= mv);
                    }
                },
            }
            i += 1;
        }
        proof {
            assert(ps.take(self.patterns.len() as int) =~= ps);
        }
        let ghost g = out@.map_values(|s: String| s@);
        if out.len() == 0 {
            let mut v: Vec<String> = Vec::new();
            let st = "*";
            proof {
                reveal_strlit("*");
                assert(st@ =~= star());
            }
            v.push(st.to_owned());
            proof {
                assert(v@[0]@ =~= star());
                assert(v@.map_values(|s: String| s@) =~= seq![star()]);
            }
            return v;
        }
        let mut keys: Vec<Vec<u64>> = Vec::new();
        let mut k: usize = 0;
        while k < out.len()
            invariant
                k <= out.len(),
                g == out@.map_values(|s: String| s@),
                keys@.map_values(|x: Vec<u64>| x@) == g.take(k as int).map_values(
                    |s: Seq<char>| code_key(s),
                ),
            decreases out.len() - k,
        {
            let ghost before = keys@.map_values(|x: Vec<u64>| x@);
            keys.push(char_key(out[k].as_str()));
            proof {
                assert(keys@.map_values(|x: Vec<u64>| x@) =~= before.push(code_key(g[k as int])));
                assert(g.take(k + 1).map_values(|s: Seq<char>| code_key(s)) =~= g.take(
                    k as int,
                ).map_values(|s: Seq<char>| code_key(s)).push(code_key(g[k as int])));
            }
            k += 1;
        }
        proof {
            assert(g.take(out.len() as int) =~= g);
        }
        let ghost items = out@;
        let sorted = sort_by_keys(out, keys, false);
        let ghost sv = sorted@.map_values(|s: String| s@);
        proof {
            let kk = g.map_values(|s: Seq<char>| code_key(s));
            let p = choose|p: Seq<int>| crate::order::is_sorting(p, sorted@, items, kk, false);
            assert(crate::order::is_sorting(p, sv, g, kk, false));
        }
        dedup_exec(sorted)
    }
}

} // verus!
