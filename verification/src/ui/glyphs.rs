//! The monochrome glyphs of the file chooser's sidebar and toolbar.
use crate::text::str_eq;
use vstd::prelude::*;

verus! {

/// A sidebar or toolbar glyph.
#[derive(Clone, Copy, Debug, PartialEq, Eq, Structural)]
pub enum Glyph {
    Folder,
    Home,
    Downloads,
    Documents,
    Pictures,
    Videos,
    Music,
    Projects,
    Computer,
    Recents,
    ChevronLeft,
}

/// The glyph of a sidebar place, by its label.
pub open spec fn place_glyph(label: Seq<char>) -> Glyph {
    if label == "Home"@ {
        Glyph::Home
    } else if label == "Downloads"@ {
        Glyph::Downloads
    } else if label == "Documents"@ {
        Glyph::Documents
    } else if label == "Pictures"@ {
        Glyph::Pictures
    } else if label == "Videos"@ {
        Glyph::Videos
    } else if label == "Music"@ {
        Glyph::Music
    } else if label == "Projects"@ {
        Glyph::Projects
    } else if label == "Computer"@ {
        Glyph::Computer
    } else if label == "Recents"@ {
        Glyph::Recents
    } else {
        Glyph::Folder
    }
}

/// The glyph of a sidebar place: the well-known labels have their own, any
/// other place is a folder.
pub fn for_place(label: &str) -> (out: Glyph)
    ensures
        out == place_glyph(label@),
{
    if str_eq(label, "Home") {
        Glyph::Home
    } else if str_eq(label, "Downloads") {
        Glyph::Downloads
    } else if str_eq(label, "Documents") {
        Glyph::Documents
    } else if str_eq(label, "Pictures") {
        Glyph::Pictures
    } else if str_eq(label, "Videos") {
        Glyph::Videos
    } else if str_eq(label, "Music") {
        Glyph::Music
    } else if str_eq(label, "Projects") {
        Glyph::Projects
    } else if str_eq(label, "Computer") {
        Glyph::Computer
    } else if str_eq(label, "Recents") {
        Glyph::Recents
    } else {
        Glyph::Folder
    }
}

} // verus!
