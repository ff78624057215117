//! The Account portal: the prompt's texts and the information sent back.
use crate::desktop::DesktopApp;
use crate::picker::PickerReply;
use crate::response::PortalResponse;
use crate::text::{concat, trim, trim_str};
use crate::uri::{file_uri, file_uri_spec};
use vstd::prelude::*;

verus! {

/// The name shown for the asking application: "this application" without
/// an id, else the name of its desktop entry (`app`, looked up for the
/// trimmed id) when not empty, else the trimmed id.
pub fn app_display_name(app_id: &str, app: Option<&DesktopApp>) -> (out: String)
    ensures
        out@ == if trim(app_id@).len() == 0 {
            "this application"@
        } else {
            match app {
                Some(a) => if a.name@.len() > 0 {
                    a.name@
                } else {
                    trim(app_id@)
                },
                None => trim(app_id@),
            }
        },
{
    let id = trim_str(app_id);
    if id.as_str().is_empty() {
        return "this application".to_owned();
    }
    match app {
        Some(a) => if !a.name.as_str().is_empty() {
            a.name.clone()
        } else {
            id
        },
        None => id,
    }
}

/// The prompt's title.
pub fn account_title(app_name: &str) -> (out: String)
    ensures
        out@ == "Share user info with "@ + app_name@ + "?"@,
{
    let a = concat("Share user info with ", app_name);
    concat(a.as_str(), "?")
}

/// The prompt's subtitle: what is shared, and the reason given.
pub fn account_subtitle(reason: &str) -> (out: String)
    ensures
        reason@.len() == 0 ==> out@ == "The application will be able to see your username, full name, and profile picture.\n\nThe application did not provide a reason."@,
        reason@.len() > 0 ==> out@ == "The application will be able to see your username, full name, and profile picture.\n\nReason: “"@ + reason@ + "”"@,
{
    if reason.is_empty() {
        "The application will be able to see your username, full name, and profile picture.\n\nThe application did not provide a reason.".to_owned()
    } else {
        let a = concat(
            "The application will be able to see your username, full name, and profile picture.\n\nReason: “",
            reason,
        );
        concat(a.as_str(), "”")
    }
}

/// The `file://` URI of the account picture, or `file://` when there is
/// none; a relative path is taken relative to the working directory `cwd`.
pub fn account_image_uri(image: Option<&str>, cwd: Option<&str>) -> (out: String)
    ensures
        out@ == match image {
            Some(p) => match file_uri_spec(p@, crate::paths::opt_str(cwd)) {
                Some(u) => u,
                None => "file://"@,
            },
            None => "file://"@,
        },
{
    let uri = match image {
        Some(p) => file_uri(p, cwd),
        None => None,
    };
    match uri {
        Some(u) => u,
        None => "file://".to_owned(),
    }
}

/// The answer: `(id, name, image URI)` of what the user shared, or
/// cancelled.
pub fn account_response(reply: Option<PickerReply>, cwd: Option<&str>) -> (out: PortalResponse<
    (String, String, String),
>)
    ensures
        match reply {
            Some(PickerReply::Account(info)) => out matches PortalResponse::Success((id, name, image))
                && id == info.id && name == info.name && image@ == match info.image {
                Some(p) => match file_uri_spec(p@, crate::paths::opt_str(cwd)) {
                    Some(u) => u,
                    None => "file://"@,
                },
                None => "file://"@,
            },
            _ => out is Cancelled,
        },
{
    match reply {
        Some(PickerReply::Account(info)) => {
            let image = match &info.image {
                Some(p) => account_image_uri(Some(p.as_str()), cwd),
                None => account_image_uri(None, cwd),
            };
            PortalResponse::Success((info.id, info.name, image))
        },
        _ => PortalResponse::Cancelled,
    }
}

} // verus!
