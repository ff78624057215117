//! The confirmation prompts (access, account, background, wallpaper and
//! plain confirmations) and what each hands back once closed.
use crate::dict::Choice;
use vstd::prelude::*;

verus! {

/// An access request shown to the user.
#[derive(Clone, Debug)]
pub struct AccessRequest {
    pub title: String,
    pub subtitle: String,
    pub body: String,
    pub deny_label: String,
    pub grant_label: String,
    pub icon: Option<String>,
    pub choices: Vec<Choice>,
}

/// The answer to an access request: granted or not, and the chosen value
/// of each choice as `(choice id, value)`.
#[derive(Clone, Debug)]
pub struct AccessResult {
    pub granted: bool,
    pub choices: Vec<(String, String)>,
}

/// A request to share the user's account information.
#[derive(Clone, Debug)]
pub struct AccountRequest {
    /// Main text: "Share user info with {app}?"
    pub title: String,
    /// What will be shared, and the reason given.
    pub subtitle: String,
    pub username: String,
    pub real_name: String,
    /// A local path shown as the avatar.
    pub image: Option<String>,
}

/// The account information the user agreed to share.
#[derive(Clone, Debug)]
pub struct AccountResult {
    pub id: String,
    pub name: String,
    pub image: Option<String>,
}

/// Which prompt is shown.
pub enum PromptKind {
    Access(AccessRequest),
    Account(AccountRequest),
    Background { title: String, subtitle: String, body: String },
    Wallpaper { uri: String },
    Confirm { title: String, subtitle: String, accept: String },
}

/// What a prompt hands back.
pub enum PromptResult {
    Access(AccessResult),
    Account(AccountResult),
    /// 0 Forbid, 1 Allow, 2 Allow once.
    Background(u32),
    Granted,
}

/// What a key press answers a prompt that is still open, as
/// `(accepted, background result)`: Escape denies (forbids, for the
/// background prompt), otherwise Enter accepts (allows); nothing without
/// either key.
pub fn key_answer(kind: &PromptKind, escape: bool, enter: bool) -> (out: (Option<bool>, Option<u32>))
    ensures
        kind is Background ==> out == (None::<bool>, if escape {
            Some(0u32)
        } else if enter {
            Some(1u32)
        } else {
            None
        }),
        !(kind is Background) ==> out == (if escape {
            Some(false)
        } else if enter {
            Some(true)
        } else {
            None
        }, None::<u32>),
{
    match kind {
        PromptKind::Background { .. } => {
            let r = if escape {
                Some(crate::portals::background::FORBID)
            } else if enter {
                Some(crate::portals::background::ALLOW)
            } else {
                None
            };
            (None, r)
        },
        _ => {
            let a = if escape {
                Some(false)
            } else if enter {
                Some(true)
            } else {
                None
            };
            (a, None)
        },
    }
}

/// The title of a prompt's window.
pub fn prompt_title(kind: &PromptKind) -> (out: String)
    ensures
        out@ == match kind {
            PromptKind::Access(r) => r.title@,
            PromptKind::Account(r) => r.title@,
            PromptKind::Background { title, .. } => title@,
            PromptKind::Wallpaper { .. } => "Set wallpaper"@,
            PromptKind::Confirm { title, .. } => title@,
        },
{
    match kind {
        PromptKind::Access(r) => r.title.clone(),
        PromptKind::Account(r) => r.title.clone(),
        PromptKind::Background { title, .. } => title.clone(),
        PromptKind::Wallpaper { .. } => "Set wallpaper".to_owned(),
        PromptKind::Confirm { title, .. } => title.clone(),
    }
}

/// The values the choices of a prompt start with: for an access request,
/// each choice's selected option; none otherwise.
pub fn initial_choice_values(kind: &PromptKind) -> (out: Vec<String>)
    ensures
        match kind {
            PromptKind::Access(r) => out.len() == r.choices.len() && forall|i: int|
                0 <= i < out.len() ==> #[trigger] out@[i]@ == r.choices@[i].selected@,
            _ => out.len() == 0,
        },
{
    match kind {
        PromptKind::Access(r) => selected_values(&r.choices),
        _ => Vec::new(),
    }
}

/// The selected option of each choice.
pub fn selected_values(choices: &Vec<Choice>) -> (out: Vec<String>)
    ensures
        out.len() == choices.len(),
        forall|i: int| 0 <= i < out.len() ==> #[trigger] out@[i]@ == choices@[i].selected@,
{
    let mut out: Vec<String> = Vec::new();
    let mut i: usize = 0;
    while i < choices.len()
        invariant
            i <= choices.len(),
            out.len() == i,
            forall|k: int| 0 <= k < i ==> #[trigger] out@[k]@ == choices@[k].selected@,
        decreases choices.len() - i,
    {
        out.push(choices[i].selected.clone());
        i += 1;
    }
    out
}

/// `(choice id, value)` for the choices and values taken pairwise, as far
/// as both go.
pub fn zip_choices(choices: &Vec<Choice>, values: &Vec<String>) -> (out: Vec<(String, String)>)
    ensures
        out.len() == if choices.len() < values.len() {
            choices.len()
        } else {
            values.len()
        },
        forall|i: int|
            0 <= i < out.len() ==> (#[trigger] out@[i]).0@ == choices@[i].id@ && out@[i].1@
                == values@[i]@,
{
    let mut out: Vec<(String, String)> = Vec::new();
    let mut i: usize = 0;
    while i < choices.len() && i < values.len()
        invariant
            i <= choices.len(),
            i <= values.len(),
            out.len() == i,
            forall|k: int|
                0 <= k < i ==> (#[trigger] out@[k]).0@ == choices@[k].id@ && out@[k].1@
                    == values@[k]@,
        decreases choices.len() - i,
    {
        out.push((choices[i].id.clone(), values[i].clone()));
        i += 1;
    }
    out
}

/// What the user agreed to share: the requested name and real name, or
/// (when empty) the login name and real name looked up; the requested image
/// when it is a file, else the account picture, else the default picture.
pub fn account_result(
    req: &AccountRequest,
    image_is_file: bool,
    face: Option<String>,
    default_image: String,
    login_name: String,
    real_name: String,
) -> (out: AccountResult)
    ensures
        out.id@ == if req.username@.len() == 0 {
            login_name@
        } else {
            req.username@
        },
        out.name@ == if req.real_name@.len() == 0 {
            real_name@
        } else {
            req.real_name@
        },
        out.image matches Some(p) && p@ == match req.image {
            Some(i) => if image_is_file {
                i@
            } else {
                match face {
                    Some(f) => f@,
                    None => default_image@,
                }
            },
            None => match face {
                Some(f) => f@,
                None => default_image@,
            },
        },
{
    let fallback = match face {
        Some(f) => f,
        None => default_image,
    };
    let image = match &req.image {
        Some(i) => if image_is_file {
            i.clone()
        } else {
            fallback
        },
        None => fallback,
    };
    AccountResult {
        id: if req.username.as_str().is_empty() {
            login_name
        } else {
            req.username.clone()
        },
        name: if req.real_name.as_str().is_empty() {
            real_name
        } else {
            req.real_name.clone()
        },
        image: Some(image),
    }
}

/// What a closed prompt hands back. A background prompt gives the answer
/// chosen, if any. Otherwise: a granted access request gives its choices, a
/// denied one nothing chosen; a granted account request gives `account` (see
/// [`account_result`]); a granted wallpaper or plain confirmation gives
/// `Granted`; anything else (closed, or denied where there is no answer for
/// it) gives nothing.
pub fn prompt_outcome(
    kind: &PromptKind,
    accepted: Option<bool>,
    background_result: Option<u32>,
    choice_values: &Vec<String>,
    account: AccountResult,
) -> (out: Option<PromptResult>)
    ensures
        match (kind, background_result) {
            (PromptKind::Background { .. }, Some(n)) => out matches Some(PromptResult::Background(m))
                && m == n,
            _ => match (accepted, kind) {
                (Some(true), PromptKind::Access(r)) => out matches Some(PromptResult::Access(a))
                    && a.granted && a.choices.len() == if r.choices.len() < choice_values.len() {
                    r.choices.len()
                } else {
                    choice_values.len()
                } && forall|i: int|
                    0 <= i < a.choices.len() ==> (#[trigger] a.choices@[i]).0@
                        == r.choices@[i].id@ && a.choices@[i].1@ == choice_values@[i]@,
                (Some(false), PromptKind::Access(_)) => out matches Some(PromptResult::Access(a))
                    && !a.granted && a.choices.len() == 0,
                (Some(true), PromptKind::Account(_)) => out matches Some(PromptResult::Account(a))
                    && a.id == account.id && a.name == account.name && a.image == account.image,
                (Some(true), PromptKind::Wallpaper { .. }) => out matches Some(PromptResult::Granted),
                (Some(true), PromptKind::Confirm { .. }) => out matches Some(PromptResult::Granted),
                _ => out is None,
            },
        },
{
    match (kind, background_result) {
        (PromptKind::Background { .. }, Some(n)) => return Some(PromptResult::Background(n)),
        _ => {},
    }
    match (accepted, kind) {
        (Some(true), PromptKind::Access(r)) => Some(
            PromptResult::Access(
                AccessResult { granted: true, choices: zip_choices(&r.choices, choice_values) },
            ),
        ),
        (Some(false), PromptKind::Access(_)) => Some(
            PromptResult::Access(AccessResult { granted: false, choices: Vec::new() }),
        ),
        (Some(true), PromptKind::Account(_)) => Some(PromptResult::Account(account)),
        (Some(true), PromptKind::Wallpaper { .. }) => Some(PromptResult::Granted),
        (Some(true), PromptKind::Confirm { .. }) => Some(PromptResult::Granted),
        _ => None,
    }
}

} // verus!
