//! The requests sent to the dialog child process and its replies.
use crate::ui::app_chooser::AppChooserRequest;
use crate::ui::confirm::{AccessRequest, AccessResult, AccountRequest, AccountResult};
use crate::ui::file_chooser::{FileChooserRequest, FileChooserResult};
use vstd::prelude::*;

verus! {

/// A dialog to show.
pub enum PickerRequest {
    FileChooser(FileChooserRequest),
    AppChooser(AppChooserRequest),
    Access(AccessRequest),
    Account(AccountRequest),
    Background { title: String, subtitle: String, body: String },
    Wallpaper { uri: String },
    Confirm { title: String, subtitle: String, accept: String },
    DynamicLauncher {
        main_text: String,
        subtitle: String,
        name: String,
        icon_path: String,
        target: String,
        editable_name: bool,
    },
    Screenshot,
}

/// What a dialog answered.
pub enum PickerReply {
    Cancel,
    FileChooser(FileChooserResult),
    App { choice: String, remember: bool },
    Access(AccessResult),
    Account(AccountResult),
    /// 0 Forbid, 1 Allow, 2 Allow once.
    Background { result: u32 },
    Wallpaper { granted: bool },
    Confirm { accepted: bool },
    DynamicLauncher { accepted: bool, name: String },
    Screenshot { target: u32 },
}

/// The value an absent `editable_name` takes.
pub fn default_true() -> (out: bool)
    ensures
        out,
{
    true
}

} // verus!
