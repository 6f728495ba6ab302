//! Application settings: which columns the picker shows, the page size,
//! and the theme. Reading and writing the settings file is the outer
//! shell's concern; the library only defines the values and their
//! defaults.

use vstd::prelude::*;

verus! {

/// On-screen appearance.
#[derive(Debug, Clone, PartialEq, Eq)]
pub struct Theme {
    /// Name of the accent color.
    pub accent: String,
}

impl Default for Theme {
    /// The default theme: a yellow accent.
    fn default() -> (r: Self)
        ensures
            r.accent@ == "yellow"@,
    {
        Theme { accent: String::from_str("yellow") }
    }
}

/// The application settings, with their defaults.
#[derive(Debug, Clone, PartialEq, Eq)]
pub struct AppSettings {
    pub theme: Theme,
    pub show_user: bool,
    pub show_hostname: bool,
    pub page_size: usize,
}

impl Default for AppSettings {
    /// The defaults: both columns shown, pages of ten rows.
    fn default() -> (r: Self)
        ensures
            r.theme.accent@ == "yellow"@,
            r.show_user == true,
            r.show_hostname == true,
            r.page_size == 10,
    {
        AppSettings { theme: Theme::default(), show_user: true, show_hostname: true, page_size: 10 }
    }
}

} // verus!
