//! The Wallpaper portal: when the wallpaper is set, and the code sent back.
use crate::response::{PortalResponse, CANCELLED, OTHER, SUCCESS};
use vstd::prelude::*;

verus! {

/// The code sent for a request: the URI must name an existing file; with a
/// preview, the user must grant it; then setting the wallpaper must
/// succeed. `granted` and `set_ok` are `None` when that step was not
/// reached.
pub open spec fn wallpaper_code_spec(
    file_ok: bool,
    show_preview: bool,
    granted: Option<bool>,
    set_ok: Option<bool>,
) -> u32 {
    if !file_ok {
        OTHER
    } else if show_preview && granted != Some(true) {
        CANCELLED
    } else if set_ok == Some(true) {
        SUCCESS
    } else {
        OTHER
    }
}

/// The code sent for a `SetWallpaperURI` request.
pub fn wallpaper_code(file_ok: bool, show_preview: bool, granted: Option<bool>, set_ok: Option<bool>) -> (out: u32)
    ensures
        out == wallpaper_code_spec(file_ok, show_preview, granted, set_ok),
{
    let resp: PortalResponse<()> = if !file_ok {
        PortalResponse::Other
    } else if show_preview && granted != Some(true) {
        PortalResponse::Cancelled
    } else if set_ok == Some(true) {
        PortalResponse::Success(())
    } else {
        PortalResponse::Other
    };
    resp.code()
}

} // verus!
