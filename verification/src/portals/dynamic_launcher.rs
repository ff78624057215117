//! The DynamicLauncher portal: the install prompt and who may get a token.
use crate::picker::PickerReply;
use crate::response::{OTHER, SUCCESS};
use crate::text::{str_eq, trim, trim_str};
use vstd::prelude::*;

verus! {

/// Software centres that may request a launcher install token.
pub open spec fn allowed_token_apps() -> Seq<Seq<char>> {
    seq![
        "org.gnome.Software"@,
        "org.gnome.SoftwareDevel"@,
        "io.elementary.appcenter"@,
        "org.kde.discover"@,
    ]
}

/// `RequestInstallToken`: `SUCCESS` for the allowed software centres,
/// `OTHER` for anyone else.
pub fn install_token_result(app_id: &str) -> (out: u32)
    ensures
        out == if allowed_token_apps().contains(app_id@) {
            SUCCESS
        } else {
            OTHER
        },
{
    let allowed: [&str; 4] = [
        "org.gnome.Software",
        "org.gnome.SoftwareDevel",
        "io.elementary.appcenter",
        "org.kde.discover",
    ];
    let mut i: usize = 0;
    while i < 4
        invariant
            i <= 4,
            allowed@.map_values(|s: &str| s@) == allowed_token_apps(),
            forall|k: int| 0 <= k < i ==> allowed_token_apps()[k] != app_id@,
        decreases 4 - i,
    {
        proof {
            assert(allowed@.map_values(|s: &str| s@)[i as int] == allowed@[i as int]@);
        }
        if str_eq(allowed[i], app_id) {
            proof {
                assert(allowed_token_apps()[i as int] == app_id@);
            }
            return SUCCESS;
        }
        i += 1;
    }
    OTHER
}

/// The texts of the prompt for a launcher type: a web application (2) or
/// an application.
pub fn launcher_texts(launcher_type: u32) -> (out: (String, String))
    ensures
        launcher_type == 2 ==> out.0@ == "Create Web Application Launcher?"@ && out.1@
            == "A launcher to open the following website will appear in application launchers:"@,
        launcher_type != 2 ==> out.0@ == "Create Application Launcher?"@ && out.1@
            == "A launcher to open the following application will appear in application launchers:"@,
{
    if launcher_type == 2 {
        (
            "Create Web Application Launcher?".to_owned(),
            "A launcher to open the following website will appear in application launchers:".to_owned(),
        )
    } else {
        (
            "Create Application Launcher?".to_owned(),
            "A launcher to open the following application will appear in application launchers:".to_owned(),
        )
    }
}

/// The name of the launcher to install, or `None` when the request was
/// cancelled: an accepted prompt gives its name (the default when left
/// blank); an older confirmation gives the default.
pub fn launcher_name(reply: Option<PickerReply>, default_name: String) -> (out: Option<String>)
    ensures
        match reply {
            Some(PickerReply::DynamicLauncher { accepted, name }) => if accepted {
                out matches Some(n) && n@ == if trim(name@).len() == 0 {
                    default_name@
                } else {
                    name@
                }
            } else {
                out is None
            },
            Some(PickerReply::Confirm { accepted }) => if accepted {
                out == Some(default_name)
            } else {
                out is None
            },
            _ => out is None,
        },
{
    match reply {
        Some(PickerReply::DynamicLauncher { accepted, name }) => if accepted {
            let t = trim_str(name.as_str());
            if t.as_str().is_empty() {
                Some(default_name)
            } else {
                Some(name)
            }
        } else {
            None
        },
        Some(PickerReply::Confirm { accepted }) => if accepted {
            Some(default_name)
        } else {
            None
        },
        _ => None,
    }
}

/// The launcher types supported: applications and web applications.
pub fn supported_launcher_types() -> (out: u32)
    ensures
        out == 3,
{
    3
}

} // verus!
