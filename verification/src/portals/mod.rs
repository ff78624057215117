//! What each portal backend decides. The D-Bus interfaces that receive the
//! calls and send the replies are in the program around this crate.
pub mod background;
pub mod email;
pub mod settings;
pub mod inhibit;
pub mod lockdown;
pub mod wallpaper;
pub mod dynamic_launcher;
pub mod access;
pub mod account;
pub mod app_chooser;
pub mod file_chooser;
pub mod screenshot;
pub mod notification;
