//! Copying and comparing configurations.
use window_switcher::config::{
    Config, Hotkey, IconOverride, SWITCH_APPS_HOTKEY_ID, SWITCH_WINDOWS_HOTKEY_ID,
};

fn strings(list: &[&str]) -> Vec<String> {
    list.iter().map(|s| s.to_string()).collect()
}

fn icon(app: &str, icon: &str) -> IconOverride {
    IconOverride { app: app.to_string(), icon: icon.to_string() }
}

fn config() -> Config {
    Config {
        trayicon: true,
        hotkeys: vec![
            Hotkey { id: SWITCH_WINDOWS_HOTKEY_ID, modifier: vec![0x38], code: 0x29 },
            Hotkey { id: SWITCH_APPS_HOTKEY_ID, modifier: vec![0x38, 0x138], code: 0x0f },
        ],
        switch_windows_blacklist: strings(&["a.exe", "b.exe"]),
        switch_windows_ignore_minimal: false,
        switch_windows_only_current_desktop: true,
        switch_apps_ignore_minimal: false,
        switch_apps_only_current_desktop: false,
        switch_apps_announce: true,
        switch_apps_accessible_list: false,
        switch_apps_override_icons: vec![icon("a.exe", "a.ico"), icon("b.exe", "b.ico")],
    }
}

#[test]
fn clone_says_the_same() {
    let copy = config().clone();
    assert!(copy.same_as(&config()));
    assert_eq!(copy.hotkeys[1].modifier, vec![0x38, 0x138]);
    assert_eq!(copy.switch_windows_blacklist, strings(&["a.exe", "b.exe"]));
    assert_eq!(copy.switch_apps_override_icons[1].icon, "b.ico");
}

#[test]
fn order_of_sets_does_not_matter() {
    let mut other = config();
    other.switch_windows_blacklist = strings(&["b.exe", "a.exe"]);
    other.switch_apps_override_icons.reverse();
    assert!(other.same_as(&config()));
    assert!(config().same_as(&other));
}

#[test]
fn clone_keeps_the_lists_as_they_are() {
    let mut settings = config();
    settings.switch_windows_blacklist = strings(&["z.exe", "a.exe", "m.exe"]);
    settings.switch_apps_override_icons =
        vec![icon("z.exe", "1.ico"), icon("a.exe", "2.ico"), icon("m.exe", "3.ico")];
    let copy = settings.clone();
    assert_eq!(copy.switch_windows_blacklist, strings(&["z.exe", "a.exe", "m.exe"]));
    let pairs: Vec<(&str, &str)> = copy
        .switch_apps_override_icons
        .iter()
        .map(|o| (o.app.as_str(), o.icon.as_str()))
        .collect();
    assert_eq!(pairs, vec![("z.exe", "1.ico"), ("a.exe", "2.ico"), ("m.exe", "3.ico")]);
}

#[test]
fn every_setting_counts() {
    let mut changed: Vec<Config> = vec![];
    for _ in 0..13 {
        changed.push(config());
    }
    changed[0].trayicon = false;
    changed[1].hotkeys[0].id = 9;
    changed[2].hotkeys[0].code = 0x2a;
    changed[3].hotkeys[1].modifier = vec![0x38];
    changed[4].switch_windows_blacklist.push("c.exe".to_string());
    changed[5].switch_windows_ignore_minimal = true;
    changed[6].switch_windows_only_current_desktop = false;
    changed[7].switch_apps_ignore_minimal = true;
    changed[8].switch_apps_only_current_desktop = true;
    changed[9].switch_apps_announce = false;
    changed[10].switch_apps_accessible_list = true;
    changed[11].switch_apps_override_icons[0].icon = "c.ico".to_string();
    changed[12].hotkeys.reverse();
    for other in &changed {
        assert!(!other.same_as(&config()));
        assert!(!config().same_as(other));
    }
}
