//! The blacklist of the foreground watcher.
use window_switcher::foreground::ForegroundWatcher;

#[test]
fn letter_case_does_not_matter() {
    let mut watcher = ForegroundWatcher::init(&vec!["Game.EXE".to_string()]);
    assert!(watcher.needs_hook());
    assert!(!watcher.is_foreground_in_blacklist());
    watcher.win_event_proc(Some("gAME.exe"));
    assert!(watcher.is_foreground_in_blacklist());
    watcher.win_event_proc(Some("editor.exe"));
    assert!(!watcher.is_foreground_in_blacklist());
}

#[test]
fn letters_beyond_ascii_are_lowered_too() {
    let mut watcher = ForegroundWatcher::init(&vec!["\u{c4}RGER.exe".to_string()]);
    watcher.win_event_proc(Some("\u{e4}rger.EXE"));
    assert!(watcher.is_foreground_in_blacklist());
}

#[test]
fn unknown_executable_changes_nothing() {
    let mut watcher = ForegroundWatcher::init(&vec!["game.exe".to_string()]);
    watcher.win_event_proc(Some("game.exe"));
    watcher.win_event_proc(None);
    assert!(watcher.is_foreground_in_blacklist());
}

#[test]
fn set_foreground_takes_lowercase_names() {
    let mut watcher = ForegroundWatcher::init(&vec!["Game.exe".to_string()]);
    watcher.set_foreground(&"game.exe".to_string());
    assert!(watcher.is_foreground_in_blacklist());
    watcher.set_foreground(&"Game.exe".to_string());
    assert!(!watcher.is_foreground_in_blacklist());
}

#[test]
fn empty_blacklist_needs_no_hook() {
    let mut watcher = ForegroundWatcher::init(&vec![]);
    assert!(!watcher.needs_hook());
    watcher.win_event_proc(Some("game.exe"));
    assert!(!watcher.is_foreground_in_blacklist());
}
