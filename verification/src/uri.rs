//! `file://` URIs, through the `url` crate.
use crate::fspath::{is_abs, is_absolute, join_path, path_join};
use crate::text::str_eq;
use vstd::prelude::*;

verus! {

/// The scheme of `uri` when the `url` crate parses it.
pub uninterp spec fn url_scheme(uri: Seq<char>) -> Option<Seq<char>>;

/// The local path `url::Url::to_file_path` gives for `uri`.
pub uninterp spec fn url_file_path(uri: Seq<char>) -> Option<Seq<char>>;

/// The serialisation of `url::Url::from_file_path(path)`.
pub uninterp spec fn file_url(path: Seq<char>) -> Option<Seq<char>>;

/// `url::Url::parse(uri)` followed by `Url::scheme`: the contract names the
/// scheme of a URI that parses and says nothing more of it.
#[verifier::external_body]
fn parsed_scheme(uri: &str) -> (r: Option<String>)
    ensures
        match url_scheme(uri@) {
            Some(s) => r matches Some(x) && x@ == s,
            None => r is None,
        },
{
    url::Url::parse(uri).ok().map(|u| u.scheme().to_string())
}

/// `url::Url::parse(uri)` followed by `Url::to_file_path`. The crate
/// documents the path as absolute; a path that is not UTF-8 is reported as
/// `None` here.
#[verifier::external_body]
fn parsed_file_path(uri: &str) -> (r: Option<String>)
    ensures
        match url_file_path(uri@) {
            Some(p) => r matches Some(x) && x@ == p,
            None => r is None,
        },
        r matches Some(x) ==> is_abs(x@),
{
    let url = url::Url::parse(uri).ok()?;
    let path = url.to_file_path().ok()?;
    path.into_os_string().into_string().ok()
}

/// `url::Url::from_file_path(path)` serialised with `to_string`. The crate
/// documents that on Unix it fails exactly for paths that are not absolute.
#[verifier::external_body]
fn file_url_text(path: &str) -> (r: Option<String>)
    ensures
        match file_url(path@) {
            Some(u) => r matches Some(x) && x@ == u,
            None => r is None,
        },
        r is Some <==> is_abs(path@),
{
    url::Url::from_file_path(std::path::Path::new(path)).ok().map(|u| u.to_string())
}

pub open spec fn file_scheme() -> Seq<char> {
    seq!['f', 'i', 'l', 'e']
}

/// The local path of a `file:` URI; `None` for other schemes and for URIs
/// that do not parse.
pub open spec fn file_uri_path(uri: Seq<char>) -> Option<Seq<char>> {
    if url_scheme(uri) == Some(file_scheme()) {
        url_file_path(uri)
    } else {
        None
    }
}

/// The `file://` URI of a path: a relative path is taken relative to the
/// working directory `cwd` (`None` when it is unknown).
pub open spec fn file_uri_spec(path: Seq<char>, cwd: Option<Seq<char>>) -> Option<Seq<char>> {
    if is_abs(path) {
        file_url(path)
    } else {
        match cwd {
            Some(c) => file_url(join_path(c, path)),
            None => None,
        }
    }
}

pub fn path_from_file_uri(uri: &str) -> (out: Option<String>)
    ensures
        match file_uri_path(uri@) {
            Some(p) => out matches Some(x) && x@ == p,
            None => out is None,
        },
        out matches Some(x) ==> is_abs(x@),
{
    proof {
        reveal_strlit("file");
        assert("file"@ =~= file_scheme());
    }
    match parsed_scheme(uri) {
        Some(s) => {
            if str_eq(s.as_str(), "file") {
                parsed_file_path(uri)
            } else {
                None
            }
        },
        None => None,
    }
}

pub fn file_uri(path: &str, cwd: Option<&str>) -> (out: Option<String>)
    ensures
        match file_uri_spec(
            path@,
            match cwd {
                Some(c) => Some(c@),
                None => None,
            },
        ) {
            Some(u) => out matches Some(x) && x@ == u,
            None => out is None,
        },
{
    if is_absolute(path) {
        file_url_text(path)
    } else {
        match cwd {
            Some(c) => {
                let abs = path_join(c, path);
                file_url_text(abs.as_str())
            },
            None => None,
        }
    }
}

} // verus!
