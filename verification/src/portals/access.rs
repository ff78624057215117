//! The Access portal: the request shown and the answer sent back.
use crate::dict::Choice;
use crate::picker::PickerReply;
use crate::response::PortalResponse;
use crate::ui::confirm::AccessRequest;
use vstd::prelude::*;

verus! {

/// The dialog for an access request: the labels default to "Deny" and
/// "Allow".
pub fn access_request(
    title: String,
    subtitle: String,
    body: String,
    deny_label: Option<String>,
    grant_label: Option<String>,
    choices: Vec<Choice>,
) -> (out: AccessRequest)
    ensures
        out.title == title,
        out.subtitle == subtitle,
        out.body == body,
        out.deny_label@ == match deny_label {
            Some(l) => l@,
            None => "Deny"@,
        },
        out.grant_label@ == match grant_label {
            Some(l) => l@,
            None => "Allow"@,
        },
        out.icon is None,
        out.choices == choices,
{
    AccessRequest {
        title,
        subtitle,
        body,
        deny_label: match deny_label {
            Some(l) => l,
            None => "Deny".to_owned(),
        },
        grant_label: match grant_label {
            Some(l) => l,
            None => "Allow".to_owned(),
        },
        icon: None,
        choices,
    }
}

/// The answer: the chosen values when access was granted, cancelled
/// otherwise.
pub fn access_response(reply: Option<PickerReply>) -> (out: PortalResponse<Vec<(String, String)>>)
    ensures
        match reply {
            Some(PickerReply::Access(r)) => if r.granted {
                out == PortalResponse::Success(r.choices)
            } else {
                out is Cancelled
            },
            _ => out is Cancelled,
        },
{
    match reply {
        Some(PickerReply::Access(r)) => if r.granted {
            PortalResponse::Success(r.choices)
        } else {
            PortalResponse::Cancelled
        },
        _ => PortalResponse::Cancelled,
    }
}

} // verus!
