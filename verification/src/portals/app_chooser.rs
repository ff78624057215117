//! The AppChooser portal: the dialog asked for and what the answer sets.
use crate::desktop::{app_id_of, portal_app_id};
use crate::picker::PickerReply;
use crate::ui::app_chooser::AppChooserRequest;
use vstd::prelude::*;

verus! {

/// The dialog for `ChooseApplication`, titled "Open with".
pub fn app_chooser_request(
    choices: Vec<String>,
    last_choice: Option<String>,
    content_type: Option<String>,
    uri: Option<String>,
    filename: Option<String>,
) -> (out: AppChooserRequest)
    ensures
        out.title@ == "Open with"@,
        out.choices == choices,
        out.last_choice == last_choice,
        out.content_type == content_type,
        out.uri == uri,
        out.filename == filename,
{
    AppChooserRequest { title: "Open with".to_owned(), choices, last_choice, content_type, uri, filename }
}

/// The application chosen, as a portal id, and the MIME type to make it the
/// default for (when "remember" was checked and the content type is known
/// and not empty); `None` when the dialog was cancelled.
pub fn chosen_app(reply: Option<PickerReply>, content_type: Option<&str>) -> (out: Option<
    (String, Option<String>),
>)
    ensures
        match reply {
            Some(PickerReply::App { choice, remember }) => out matches Some((id, mime)) && id@
                == app_id_of(choice@) && crate::paths::opt_view(mime) == match content_type {
                Some(ct) => if remember && ct@.len() > 0 {
                    Some(ct@)
                } else {
                    None
                },
                None => None,
            },
            _ => out is None,
        },
{
    match reply {
        Some(PickerReply::App { choice, remember }) => {
            let id = portal_app_id(choice.as_str());
            let mime = match content_type {
                Some(ct) => if remember && !ct.is_empty() {
                    Some(ct.to_owned())
                } else {
                    None
                },
                None => None,
            };
            Some((id, mime))
        },
        _ => None,
    }
}

} // verus!
