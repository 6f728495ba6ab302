use ssh_picker::settings::{AppSettings, Theme};

#[test]
fn settings_defaults() {
    let s = AppSettings::default();
    assert_eq!(s.theme.accent, "yellow");
    assert!(s.show_user);
    assert!(s.show_hostname);
    assert_eq!(s.page_size, 10);
}

#[test]
fn theme_default_accent() {
    assert_eq!(Theme::default().accent, "yellow");
}
