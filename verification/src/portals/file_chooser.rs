//! The FileChooser portal: the request handed to the dialog and the
//! results sent back.
use crate::filters::{filters_equal, FileFilter, PatternSpec};
use crate::fspath::{file_name, is_abs, is_absolute, parent, path_file_name, path_parent};
use crate::picker::PickerReply;
use crate::response::PortalResponse;
use crate::text::{replace_all, replace_str};
use crate::ui::file_chooser::{FileChooserResult, FileMode};
use crate::uri::{file_uri, file_uri_spec};
use vstd::prelude::*;

verus! {

pub open spec fn filter_view(f: FileFilter) -> (Seq<char>, Seq<PatternSpec>) {
    (f.label@, f.patterns_spec())
}

pub open spec fn filters_view(fs: Seq<FileFilter>) -> Seq<(Seq<char>, Seq<PatternSpec>)> {
    fs.map_values(|f: FileFilter| filter_view(f))
}

/// The index of the first filter equal to `f`.
pub open spec fn filter_index(fs: Seq<(Seq<char>, Seq<PatternSpec>)>, f: (Seq<char>, Seq<PatternSpec>)) -> Option<int>
    decreases fs.len(),
{
    if fs.len() == 0 {
        None
    } else if fs[0] == f {
        Some(0)
    } else {
        match filter_index(fs.drop_first(), f) {
            Some(i) => Some(i + 1),
            None => None,
        }
    }
}

proof fn lemma_filter_index(fs: Seq<(Seq<char>, Seq<PatternSpec>)>, f: (Seq<char>, Seq<PatternSpec>), i: int)
    requires
        0 <= i <= fs.len(),
        forall|k: int| 0 <= k < i ==> fs[k] != f,
        i < fs.len() ==> fs[i] == f,
    ensures
        i < fs.len() ==> filter_index(fs, f) == Some(i),
        i == fs.len() ==> filter_index(fs, f) is None,
    decreases fs.len(),
{
    if fs.len() > 0 && i > 0 {
        assert forall|k: int| 0 <= k < i - 1 implies fs.drop_first()[k] != f by {
            assert(fs.drop_first()[k] == fs[k + 1]);
        }
        if i < fs.len() {
            assert(fs.drop_first()[i - 1] == fs[i]);
        }
        lemma_filter_index(fs.drop_first(), f, i - 1);
    }
}

/// The filter selected at the start: the current filter when one is given
/// (added in front of the list when it is not in it), else the first
/// filter, if any.
pub fn select_current_filter(filters: &mut Vec<FileFilter>, current: Option<FileFilter>) -> (out: Option<usize>)
    ensures
        match current {
            None => filters_view(final(filters)@) == filters_view(old(filters)@) && out == if old(filters).len() == 0 {
                None
            } else {
                Some(0usize)
            },
            Some(c) => match filter_index(filters_view(old(filters)@), filter_view(c)) {
                Some(i) => filters_view(final(filters)@) == filters_view(old(filters)@) && out == Some(i as usize),
                None => filters_view(final(filters)@) == seq![filter_view(c)] + filters_view(old(filters)@)
                    && out == Some(0usize),
            },
        },
{
    let c = match current {
        Some(c) => c,
        None => {
            return if filters.len() == 0 {
                None
            } else {
                Some(0)
            };
        },
    };
    let ghost fv = filters_view(filters@);
    let mut i: usize = 0;
    while i < filters.len()
        invariant
            i <= filters.len(),
            fv == filters_view(filters@),
            current == Some(c),
            filters@ == old(filters)@,
            forall|k: int| 0 <= k < i ==> fv[k] != filter_view(c),
        decreases filters.len() - i,
    {
        if filters_equal(&filters[i], &c) {
            proof {
                assert(fv[i as int] == filter_view(c));
                lemma_filter_index(fv, filter_view(c), i as int);
            }
            return Some(i);
        }
        i += 1;
    }
    proof {
        lemma_filter_index(fv, filter_view(c), fv.len() as int);
    }
    filters.insert(0, c);
    proof {
        assert(filters_view(filters@) =~= seq![filter_view(c)] + fv);
    }
    Some(0)
}

/// The folder a path is in (`Path::parent`).
pub fn parent_dir(path: &str) -> (out: Option<String>)
    ensures
        crate::paths::opt_view(out) == parent(path@),
{
    path_parent(path)
}

/// The name to save under: the name given when not empty, else the file
/// name of the current file, else nothing.
pub fn save_current_name(current_name: Option<String>, current_file: Option<&str>) -> (out: String)
    ensures
        out@ == match current_name {
            Some(n) if n@.len() > 0 => n@,
            _ => match current_file {
                Some(f) => match file_name(f@) {
                    Some(n) => n,
                    None => Seq::empty(),
                },
                None => Seq::empty(),
            },
        },
{
    match current_name {
        Some(n) => if !n.as_str().is_empty() {
            return n;
        },
        None => {},
    }
    match current_file {
        Some(f) => match path_file_name(f) {
            Some(n) => n,
            None => String::new(),
        },
        None => String::new(),
    }
}

/// The label of the accept button: the one given, else "Open" or "Save",
/// with mnemonic underscores taken out.
pub fn accept_label(label: Option<String>, mode: FileMode) -> (out: String)
    ensures
        out@ == replace_all(
            match label {
                Some(l) => l@,
                None => if mode == FileMode::Open {
                    "Open"@
                } else {
                    "Save"@
                },
            },
            "_"@,
            ""@,
        ),
{
    let l = match label {
        Some(l) => l,
        None => if mode == FileMode::Open {
            "Open".to_owned()
        } else {
            "Save".to_owned()
        },
    };
    proof {
        reveal_strlit("_");
    }
    replace_str(l.as_str(), "_", "")
}

/// Whether the dialog chooses folders: when asked to, and always for
/// saving several files.
pub fn choose_directory(directory: bool, mode: FileMode) -> (out: bool)
    ensures
        out == (directory || mode == FileMode::SaveFiles),
{
    directory || mode == FileMode::SaveFiles
}

/// Where the folder shown at the start comes from.
pub enum FolderSource {
    /// Resolve this absolute path through the document portal.
    Resolve(String),
    /// A relative folder was given: it is ignored.
    Ignore,
    /// No folder was given: use the current file's folder.
    FromFile,
}

/// Where the starting folder comes from, given the `current_folder` option.
pub fn folder_source(current_folder: Option<&str>) -> (out: FolderSource)
    ensures
        match current_folder {
            Some(p) => if is_abs(p@) {
                out matches FolderSource::Resolve(q) && q@ == p@
            } else {
                out is Ignore
            },
            None => out is FromFile,
        },
{
    match current_folder {
        Some(p) => if is_absolute(p) {
            FolderSource::Resolve(p.to_owned())
        } else {
            FolderSource::Ignore
        },
        None => FolderSource::FromFile,
    }
}

/// The current file to resolve: only an absolute one is used.
pub fn file_to_resolve(current_file: Option<&str>) -> (out: Option<String>)
    ensures
        crate::paths::opt_view(out) == match current_file {
            Some(p) => if is_abs(p@) {
                Some(p@)
            } else {
                None
            },
            None => None,
        },
{
    match current_file {
        Some(p) => if is_absolute(p) {
            Some(p.to_owned())
        } else {
            None
        },
        None => None,
    }
}

/// The results sent for a file-chooser answer.
pub struct FileChooserOut {
    pub uris: Vec<String>,
    pub choices: Vec<(String, String)>,
    pub current_filter: Option<(String, Vec<(u32, String)>)>,
    pub writable: bool,
}

/// The `file://` URIs of the paths, leaving out those that have none.
pub open spec fn uris_spec(paths: Seq<Seq<char>>, cwd: Option<Seq<char>>) -> Seq<Seq<char>>
    decreases paths.len(),
{
    if paths.len() == 0 {
        Seq::empty()
    } else {
        let rest = uris_spec(paths.drop_last(), cwd);
        match file_uri_spec(paths.last(), cwd) {
            Some(u) => rest.push(u),
            None => rest,
        }
    }
}

/// The results for the dialog's answer; `cwd` resolves relative paths.
pub fn to_out(result: FileChooserResult, cwd: Option<&str>) -> (out: FileChooserOut)
    ensures
        out.uris@.map_values(|s: String| s@) == uris_spec(
            result.paths@.map_values(|s: String| s@),
            crate::paths::opt_str(cwd),
        ),
        out.choices == result.choices,
        out.current_filter == result.current_filter,
        out.writable,
{
    let ghost pv = result.paths@.map_values(|s: String| s@);
    let mut uris: Vec<String> = Vec::new();
    let mut i: usize = 0;
    while i < result.paths.len()
        invariant
            i <= result.paths.len(),
            pv == result.paths@.map_values(|s: String| s@),
            uris@.map_values(|s: String| s@) == uris_spec(pv.take(i as int), crate::paths::opt_str(cwd)),
        decreases result.paths.len() - i,
    {
        proof {
            assert(pv.take(i + 1).drop_last() =~= pv.take(i as int));
            assert(pv.take(i + 1).last() == result.paths@[i as int]@);
        }
        let ghost before = uris@.map_values(|s: String| s@);
        match file_uri(result.paths[i].as_str(), cwd) {
            Some(u) => {
                uris.push(u);
                proof {
                    assert(uris@.map_values(|s: String| s@) =~= before.push(uris@.last()@));
                }
            },
            None => {},
        }
        i += 1;
    }
    proof {
        assert(pv.take(result.paths.len() as int) =~= pv);
    }
    FileChooserOut { uris, choices: result.choices, current_filter: result.current_filter, writable: true }
}

/// The response to a file-chooser request: the results when the dialog
/// answered with at least one usable path, `Other` when none was usable,
/// `Cancelled` when it was closed.
pub fn file_chooser_response(reply: Option<PickerReply>, cwd: Option<&str>) -> (out: PortalResponse<FileChooserOut>)
    ensures
        match reply {
            Some(PickerReply::FileChooser(r)) => {
                let u = uris_spec(r.paths@.map_values(|s: String| s@), crate::paths::opt_str(cwd));
                if u.len() == 0 {
                    out is Other
                } else {
                    out matches PortalResponse::Success(o) && o.uris@.map_values(|s: String| s@) == u
                        && o.choices == r.choices && o.current_filter == r.current_filter && o.writable
                }
            },
            _ => out is Cancelled,
        },
{
    match reply {
        Some(PickerReply::FileChooser(r)) => {
            let o = to_out(r, cwd);
            if o.uris.len() == 0 {
                PortalResponse::Other
            } else {
                PortalResponse::Success(o)
            }
        },
        _ => PortalResponse::Cancelled,
    }
}

} // verus!
