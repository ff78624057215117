//! Glyphs for file-list rows: Nerd Font icons when that font is installed,
//! plain characters otherwise.
use crate::fspath::{extension, path_extension};
use crate::text::{lower_seq, str_eq, to_ascii_lowercase};
use vstd::prelude::*;

verus! {

/// What a file-list row shows: a directory, or a file by its extension.
#[derive(Clone, Copy, Debug, PartialEq, Eq, Structural)]
pub enum FileKind {
    Directory,
    Audio,
    Image,
    Video,
    Pdf,
    Archive,
    Code,
    Text,
    Other,
}

pub open spec fn in_list(e: Seq<char>, list: Seq<Seq<char>>) -> bool {
    list.contains(e)
}

pub open spec fn audio_list() -> Seq<Seq<char>> {
    seq!["mp3"@, "flac"@, "wav"@, "ogg"@, "m4a"@, "aac"@, "opus"@, "wma"@]
}

pub open spec fn image_list() -> Seq<Seq<char>> {
    seq!["png"@, "jpg"@, "jpeg"@, "gif"@, "webp"@, "svg"@, "bmp"@, "ico"@, "avif"@]
}

pub open spec fn video_list() -> Seq<Seq<char>> {
    seq!["mp4"@, "mkv"@, "webm"@, "avi"@, "mov"@, "m4v"@]
}

pub open spec fn archive_list() -> Seq<Seq<char>> {
    seq!["zip"@, "tar"@, "gz"@, "tgz"@, "7z"@, "rar"@, "xz"@, "bz2"@]
}

pub open spec fn code_list() -> Seq<Seq<char>> {
    seq![
        "rs"@,
        "py"@,
        "js"@,
        "ts"@,
        "go"@,
        "c"@,
        "h"@,
        "cpp"@,
        "java"@,
        "kt"@,
        "rb"@,
        "sh"@,
        "qml"@,
        "toml"@,
        "json"@,
        "yml"@,
        "yaml"@,
        "xml"@,
        "html"@,
        "css"@,
    ]
}

pub open spec fn text_list() -> Seq<Seq<char>> {
    seq!["txt"@, "md"@, "log"@, "rst"@]
}

/// The kind of a row: a directory, or the class of the file name's
/// extension in ASCII lower case (none: `Other`).
pub open spec fn file_kind(is_dir: bool, name: Seq<char>) -> FileKind {
    if is_dir {
        FileKind::Directory
    } else {
        let e = match extension(name) {
            Some(x) => lower_seq(x),
            None => Seq::empty(),
        };
        if in_list(e, audio_list()) {
            FileKind::Audio
        } else if in_list(e, image_list()) {
            FileKind::Image
        } else if in_list(e, video_list()) {
            FileKind::Video
        } else if e == "pdf"@ {
            FileKind::Pdf
        } else if in_list(e, archive_list()) {
            FileKind::Archive
        } else if in_list(e, code_list()) {
            FileKind::Code
        } else if in_list(e, text_list()) {
            FileKind::Text
        } else {
            FileKind::Other
        }
    }
}

/// The glyph of a kind, with and without a Nerd Font.
pub open spec fn kind_glyph(kind: FileKind, nerd: bool) -> Seq<char> {
    match kind {
        FileKind::Directory => if nerd {
            "\u{f07b}"@
        } else {
            "▸"@
        },
        FileKind::Audio => if nerd {
            "\u{f001}"@
        } else {
            "♪"@
        },
        FileKind::Image => if nerd {
            "\u{f03e}"@
        } else {
            "▣"@
        },
        FileKind::Video => if nerd {
            "\u{f03d}"@
        } else {
            "▶"@
        },
        FileKind::Pdf => if nerd {
            "\u{f1c1}"@
        } else {
            "P"@
        },
        FileKind::Archive => if nerd {
            "\u{f1c6}"@
        } else {
            "Z"@
        },
        FileKind::Code => if nerd {
            "\u{f1c9}"@
        } else {
            "{}"@
        },
        FileKind::Text => if nerd {
            "\u{f0f6}"@
        } else {
            "T"@
        },
        FileKind::Other => if nerd {
            "\u{f15b}"@
        } else {
            "·"@
        },
    }
}

/// Whether `e` is one of the strings of `list`.
fn one_of(e: &str, list: &[&str]) -> (out: bool)
    ensures
        out == list@.map_values(|x: &str| x@).contains(e@),
{
    let ghost lv = list@.map_values(|x: &str| x@);
    let mut i: usize = 0;
    while i < list.len()
        invariant
            i <= list.len(),
            lv == list@.map_values(|x: &str| x@),
            forall|k: int| 0 <= k < i ==> lv[k] != e@,
        decreases list.len() - i,
    {
        if str_eq(list[i], e) {
            proof {
                assert(lv[i as int] == e@);
            }
            return true;
        }
        i += 1;
    }
    false
}

/// The kind of a row for a directory or a file name.
pub fn kind_of(is_dir: bool, name: &str) -> (out: FileKind)
    ensures
        out == file_kind(is_dir, name@),
{
    if is_dir {
        return FileKind::Directory;
    }
    let e = match path_extension(name) {
        Some(x) => to_ascii_lowercase(x.as_str()),
        None => String::new(),
    };
    let e = e.as_str();
    let audio: [&str; 8] = ["mp3", "flac", "wav", "ogg", "m4a", "aac", "opus", "wma"];
    let image: [&str; 9] = ["png", "jpg", "jpeg", "gif", "webp", "svg", "bmp", "ico", "avif"];
    let video: [&str; 6] = ["mp4", "mkv", "webm", "avi", "mov", "m4v"];
    let archive: [&str; 8] = ["zip", "tar", "gz", "tgz", "7z", "rar", "xz", "bz2"];
    let code: [&str; 20] = [
        "rs",
        "py",
        "js",
        "ts",
        "go",
        "c",
        "h",
        "cpp",
        "java",
        "kt",
        "rb",
        "sh",
        "qml",
        "toml",
        "json",
        "yml",
        "yaml",
        "xml",
        "html",
        "css",
    ];
    let text: [&str; 4] = ["txt", "md", "log", "rst"];
    proof {
        assert(audio@.map_values(|x: &str| x@) =~= audio_list());
        assert(image@.map_values(|x: &str| x@) =~= image_list());
        assert(video@.map_values(|x: &str| x@) =~= video_list());
        assert(archive@.map_values(|x: &str| x@) =~= archive_list());
        assert(code@.map_values(|x: &str| x@) =~= code_list());
        assert(text@.map_values(|x: &str| x@) =~= text_list());
    }
    if one_of(e, audio.as_slice()) {
        FileKind::Audio
    } else if one_of(e, image.as_slice()) {
        FileKind::Image
    } else if one_of(e, video.as_slice()) {
        FileKind::Video
    } else if str_eq(e, "pdf") {
        FileKind::Pdf
    } else if one_of(e, archive.as_slice()) {
        FileKind::Archive
    } else if one_of(e, code.as_slice()) {
        FileKind::Code
    } else if one_of(e, text.as_slice()) {
        FileKind::Text
    } else {
        FileKind::Other
    }
}

/// The glyph for a directory or a file name; `nerd` tells whether a Nerd
/// Font is installed.
pub fn file_glyph(nerd: bool, is_dir: bool, name: &str) -> (out: &'static str)
    ensures
        out@ == kind_glyph(file_kind(is_dir, name@), nerd),
{
    match kind_of(is_dir, name) {
        FileKind::Directory => if nerd {
            "\u{f07b}"
        } else {
            "▸"
        },
        FileKind::Audio => if nerd {
            "\u{f001}"
        } else {
            "♪"
        },
        FileKind::Image => if nerd {
            "\u{f03e}"
        } else {
            "▣"
        },
        FileKind::Video => if nerd {
            "\u{f03d}"
        } else {
            "▶"
        },
        FileKind::Pdf => if nerd {
            "\u{f1c1}"
        } else {
            "P"
        },
        FileKind::Archive => if nerd {
            "\u{f1c6}"
        } else {
            "Z"
        },
        FileKind::Code => if nerd {
            "\u{f1c9}"
        } else {
            "{}"
        },
        FileKind::Text => if nerd {
            "\u{f0f6}"
        } else {
            "T"
        },
        FileKind::Other => if nerd {
            "\u{f15b}"
        } else {
            "·"
        },
    }
}

/// The glyph of the "up" button.
pub fn up_glyph(nerd: bool) -> (out: &'static str)
    ensures
        out@ == (if nerd {
            "\u{f062}"@
        } else {
            ".."@
        }),
{
    if nerd {
        "\u{f062}"
    } else {
        ".."
    }
}

} // verus!
