//! A window switcher: Alt-Tab between apps, and between the windows of one app.
//!
//! The switcher keeps its own most-recently-used order of apps and windows (`mru`),
//! because activating candidates reshuffles the order in which the windows lie on top
//! of each other. `app` holds its state: a session between apps (`switch_apps`), a
//! cycle through the windows of one app (`switch_windows`), the icons, and the windows
//! that were restored only to preview them. `keyboard` turns keystrokes into messages,
//! `message` tells what a message asks for, `foreground` keeps the blacklist, and `uia`
//! describes the overlay to assistive technology. `launch` gives the order in which the
//! program starts.
//!
//! What touches the desktop is left to the caller. Functions take what the desktop
//! shows as plain values, and return what is to be done to it. Windows and icons go by
//! their handles.
//!
//! `laws` states what holds of the switcher as a whole, and `effects` what its steps do,
//! position by position. `id_set` and `text` hold what rests on code outside of this
//! crate: `indexmap`'s sets, and `str::to_lowercase`.
pub mod app;
pub mod config;
pub mod desktop;
pub mod effects;
pub mod foreground;
pub mod id_set;
pub mod keyboard;
pub mod launch;
pub mod laws;
pub mod message;
pub mod mru;
pub mod overlay;
pub mod seqs;
pub mod switch_apps;
pub mod switch_windows;
pub mod text;
pub mod uia;
