//! Verified core of an xdg-desktop-portal backend for Omarchy.
//!
//! The backend implements `org.freedesktop.impl.portal.*` so that
//! `xdg-desktop-portal` routes file choosers, settings, screenshots and the
//! other dialogs through Omarchy. This crate holds what those services
//! decide and compute; talking to D-Bus, the file system and the screen is
//! done by the program around it.
use vstd::prelude::*;

pub mod assoc;
pub mod idset;
pub mod text;
pub mod fspath;
pub mod order;
pub mod desktop;
pub mod uri;
pub mod filters;
pub mod dict;
pub mod documents;
pub mod paths;
pub mod theme;
pub mod ui;
pub mod response;
pub mod request;
pub mod picker;
pub mod capture;

verus! {

/// The bus name the backend owns.
pub const DBUS_NAME: &'static str = "org.freedesktop.impl.portal.desktop.omarchy";

/// The object path of the portal interfaces.
pub const DBUS_PATH: &'static str = "/org/freedesktop/portal/desktop";

/// The application id of the dialogs.
pub const APP_ID: &'static str = "xdg-desktop-portal-omarchy";

} // verus!
pub mod portals;
