//! What the dialogs decide: the file chooser's state, the application
//! chooser's list, the prompts' outcomes and the file glyphs. Drawing them is
//! left to the caller.
pub mod glyphs;
pub mod fonts;
pub mod thumbs;
pub mod confirm;
pub mod app_chooser;
pub mod file_chooser;
