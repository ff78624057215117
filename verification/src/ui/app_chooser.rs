//! The "Open with" application chooser: which application starts out
//! selected, which ones a search shows, and what is handed back.
use crate::desktop::{contains_str, AppSpec, DesktopApp};
use crate::text::{find, str_eq, to_lowercase, unicode_lowercase};
use vstd::prelude::*;

verus! {

/// What the application chooser is asked.
#[derive(Clone, Debug)]
pub struct AppChooserRequest {
    pub title: String,
    pub choices: Vec<String>,
    pub last_choice: Option<String>,
    pub content_type: Option<String>,
    pub uri: Option<String>,
    pub filename: Option<String>,
}

pub open spec fn has_app(apps: Seq<DesktopApp>, id: Seq<char>) -> bool {
    exists|i: int| 0 <= i < apps.len() && #[trigger] apps[i].id@ == id
}

/// The application selected at the start: the last choice when it is among
/// the applications, else the first application, else none.
pub open spec fn initial_selection_spec(apps: Seq<DesktopApp>, last: Option<Seq<char>>) -> Option<
    Seq<char>,
> {
    match last {
        Some(l) if has_app(apps, l) => Some(l),
        _ => if apps.len() > 0 {
            Some(apps[0].id@)
        } else {
            None
        },
    }
}

/// The application selected when the chooser opens.
pub fn initial_selection(apps: &Vec<DesktopApp>, last_choice: Option<&str>) -> (out: Option<String>)
    ensures
        crate::paths::opt_view(out) == initial_selection_spec(
            apps@,
            crate::paths::opt_str(last_choice),
        ),
{
    match last_choice {
        Some(l) => {
            let mut i: usize = 0;
            while i < apps.len()
                invariant
                    i <= apps.len(),
                    last_choice == Some(l),
                    forall|k: int| 0 <= k < i ==> apps@[k].id@ != l@,
                decreases apps.len() - i,
            {
                if str_eq(apps[i].id.as_str(), l) {
                    proof {
                        assert(has_app(apps@, l@));
                    }
                    return Some(l.to_owned());
                }
                i += 1;
            }
            proof {
                if has_app(apps@, l@) {
                    let k = choose|k: int| 0 <= k < apps@.len() && #[trigger] apps@[k].id@ == l@;
                    assert(apps@[k].id@ != l@);
                }
            }
        },
        None => {},
    }
    if apps.len() > 0 {
        Some(apps[0].id.clone())
    } else {
        None
    }
}

/// Whether an application shows for a search: the query is empty, or its
/// lower case occurs in the lower-cased name or id.
pub open spec fn app_shown(app: AppSpec, query: Seq<char>) -> bool {
    let q = unicode_lowercase(query);
    q.len() == 0 || find(unicode_lowercase(app.name), q) is Some || find(
        unicode_lowercase(app.id),
        q,
    ) is Some
}

pub open spec fn shown_apps(apps: Seq<AppSpec>, query: Seq<char>) -> Seq<AppSpec>
    decreases apps.len(),
{
    if apps.len() == 0 {
        Seq::empty()
    } else {
        let rest = shown_apps(apps.drop_last(), query);
        if app_shown(apps.last(), query) {
            rest.push(apps.last())
        } else {
            rest
        }
    }
}

pub open spec fn apps_view(apps: Seq<DesktopApp>) -> Seq<AppSpec> {
    apps.map_values(|a: DesktopApp| a@)
}

/// The applications a search shows, in order.
pub fn visible_apps(apps: &Vec<DesktopApp>, query: &str) -> (out: Vec<DesktopApp>)
    ensures
        apps_view(out@) == shown_apps(apps_view(apps@), query@),
{
    let q = to_lowercase(query);
    let ghost av = apps_view(apps@);
    let mut out: Vec<DesktopApp> = Vec::new();
    let mut i: usize = 0;
    while i < apps.len()
        invariant
            i <= apps.len(),
            av == apps_view(apps@),
            q@ == unicode_lowercase(query@),
            apps_view(out@) == shown_apps(av.take(i as int), query@),
        decreases apps.len() - i,
    {
        proof {
            assert(av.take(i + 1).drop_last() =~= av.take(i as int));
            assert(av.take(i + 1).last() == apps@[i as int]@);
        }
        let ghost before = apps_view(out@);
        let shown = if q.as_str().is_empty() {
            true
        } else {
            let name = to_lowercase(apps[i].name.as_str());
            let id = to_lowercase(apps[i].id.as_str());
            contains_str(name.as_str(), q.as_str()) || contains_str(id.as_str(), q.as_str())
        };
        if shown {
            let a = apps[i].clone_app();
            out.push(a);
            proof {
                assert(apps_view(out@) =~= before.push(apps@[i as int]@));
            }
        }
        i += 1;
    }
    proof {
        assert(av.take(apps.len() as int) =~= av);
    }
    out
}

/// What the chooser hands back: the selected application and whether to
/// remember it, when the user accepted with one selected.
pub fn chooser_result(accepted: bool, selected: Option<String>, remember: bool) -> (out: Option<
    (String, bool),
>)
    ensures
        match (accepted, selected) {
            (true, Some(s)) => out == Some((s, remember)),
            _ => out is None,
        },
{
    if accepted {
        match selected {
            Some(s) => Some((s, remember)),
            None => None,
        }
    } else {
        None
    }
}

} // verus!
