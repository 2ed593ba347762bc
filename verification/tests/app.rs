//! The switcher's sessions.
use window_switcher::app::{
    start, AfterSwitch, App, ListRequest, Reload, SwitchStep, Task, TrayAttempt,
    TRAYICON_RETRY_SECS,
};
use window_switcher::config::{
    Config, Hotkey, IconOverride, SWITCH_APPS_HOTKEY_ID, SWITCH_WINDOWS_HOTKEY_ID,
};
use window_switcher::desktop::{AppWindows, Window};
use window_switcher::message::Message;
use window_switcher::switch_apps::SwitchAppsState;
use window_switcher::uia::{ListProvider, Rect};

fn config() -> Config {
    Config {
        trayicon: true,
        hotkeys: vec![
            Hotkey { id: SWITCH_WINDOWS_HOTKEY_ID, modifier: vec![0x38], code: 0x29 },
            Hotkey { id: SWITCH_APPS_HOTKEY_ID, modifier: vec![0x38], code: 0x0f },
        ],
        switch_windows_blacklist: vec![],
        switch_windows_ignore_minimal: false,
        switch_windows_only_current_desktop: true,
        switch_apps_ignore_minimal: true,
        switch_apps_only_current_desktop: false,
        switch_apps_announce: true,
        switch_apps_accessible_list: false,
        switch_apps_override_icons: vec![IconOverride {
            app: "mail".to_string(),
            icon: "mail.ico".to_string(),
        }],
    }
}

fn accessible() -> Config {
    let mut config = config();
    config.switch_apps_accessible_list = true;
    config
}

fn window(id: isize, minimized: bool) -> Window {
    Window { id, title: format!("window {id}"), minimized }
}

fn group(key: &str, ids: &[isize]) -> AppWindows {
    AppWindows {
        key: key.to_string(),
        windows: ids.iter().map(|id| window(*id, false)).collect(),
    }
}

/// Three apps: mail with one window, editor with three, shell with one.
fn desktop() -> Vec<AppWindows> {
    vec![group("mail", &[10]), group("editor", &[20, 21, 22]), group("shell", &[30])]
}

fn rects(count: usize) -> Vec<Rect> {
    (0..count)
        .map(|i| Rect { left: 10 * i as i32, top: 0, right: 10 * i as i32 + 10, bottom: 10 })
        .collect()
}

/// Opens a session as the window does, with icon 1000 + n for the n-th app loaded.
fn open(
    app: &mut App,
    uia: &mut ListProvider,
    windows: &Vec<AppWindows>,
    foreground: isize,
    reverse: bool,
) -> SwitchStep {
    let step = app.switch_apps(uia, reverse, foreground);
    assert!(matches!(step, SwitchStep::List(_)));
    let list = app.arrange_apps(windows, foreground).unwrap();
    let mut loaded = vec![];
    for entry in &list.entries {
        if entry.icon.is_none() {
            loaded.push(1000 + app.cached_icons.len() as isize + loaded.len() as isize);
        }
    }
    app.open_apps(uia, &list.entries, &loaded, rects(list.entries.len()), reverse)
}

fn session(app: &App) -> &SwitchAppsState {
    app.switch_apps_state.as_ref().unwrap()
}

fn spoken(step: &SwitchStep) -> Option<String> {
    match step {
        SwitchStep::List(_) => None,
        SwitchStep::Activate { announcement, .. } => announcement.clone(),
        SwitchStep::Select { announcement } => announcement.clone(),
        SwitchStep::Describe { announcement } => announcement.clone(),
    }
}

fn activated(step: &SwitchStep) -> Option<isize> {
    match step {
        SwitchStep::Activate { hwnd, .. } => Some(*hwnd),
        _ => None,
    }
}

#[test]
fn switcher_starts_blank() {
    let app = start(&config(), true);
    assert!(app.is_admin);
    assert!(app.trayicon);
    assert!(app.config.same_as(&config()));
    assert!(app.switch_windows_state.cache.is_none());
    assert!(app.switch_windows_state.modifier_released);
    assert!(app.switch_apps_state.is_none());
    assert!(app.app_mru.is_empty());
    assert!(app.window_mru.is_empty());
    assert!(app.restored_windows.is_empty());
    assert!(app.cached_icons.is_empty());
    assert_eq!(app.original_foreground, None);
}

#[test]
fn opening_asks_for_a_list_first() {
    let mut app = App::start(&config(), true);
    let mut uia = ListProvider::new(1);
    let step = app.switch_apps(&mut uia, false, 20);
    let request = ListRequest { ignore_minimal: true, only_current_desktop: false, is_admin: true };
    assert!(matches!(step, SwitchStep::List(asked) if asked == request));
    assert_eq!(app.original_foreground, Some(20));
    assert!(app.switch_apps_state.is_none());
}

#[test]
fn list_for_switching_windows() {
    let app = App::start(&config(), false);
    assert_eq!(
        app.switch_windows_list(),
        ListRequest { ignore_minimal: false, only_current_desktop: true, is_admin: false }
    );
}

#[test]
fn nothing_to_show_opens_no_session() {
    let mut app = App::start(&config(), false);
    let mut uia = ListProvider::new(1);
    app.switch_apps(&mut uia, false, 20);
    assert!(app.arrange_apps(&vec![], 20).is_none());
    assert!(app.switch_apps_state.is_none());
    assert_eq!(
        app.after_switch_apps(true),
        AfterSwitch { paint: false, focus_overlay: false }
    );
}

#[test]
fn session_opens_on_the_app_behind_the_foreground() {
    let mut app = App::start(&config(), false);
    let mut uia = ListProvider::new(1);
    let step = open(&mut app, &mut uia, &desktop(), 21, false);
    let state = session(&app);
    assert_eq!(state.keys, vec!["editor", "mail", "shell"]);
    assert_eq!(state.names, vec!["window 21", "window 10", "window 30"]);
    assert_eq!(state.apps, vec![(1000, 21), (1001, 10), (1002, 30)]);
    assert_eq!(state.index, 1);
    assert_eq!(activated(&step), Some(10));
    assert_eq!(spoken(&step).unwrap(), "window 10, 2 of 3");
    assert_eq!(app.app_mru, vec!["editor", "mail", "shell"]);
    assert_eq!(app.window_mru, vec![21]);
    assert_eq!(uia.selection.names, vec!["window 21", "window 10", "window 30"]);
    assert_eq!(uia.selection.rects, rects(3));
    assert_eq!(uia.selection.selected, 1);
    assert_eq!(
        app.after_switch_apps(true),
        AfterSwitch { paint: true, focus_overlay: false }
    );
}

#[test]
fn session_opens_backwards_on_the_last_app() {
    let mut app = App::start(&config(), false);
    let mut uia = ListProvider::new(1);
    let step = open(&mut app, &mut uia, &desktop(), 21, true);
    assert_eq!(session(&app).index, 2);
    assert_eq!(activated(&step), Some(30));
}

#[test]
fn session_with_one_app_stays_on_it() {
    let mut app = App::start(&config(), false);
    let mut uia = ListProvider::new(1);
    let step = open(&mut app, &mut uia, &vec![group("mail", &[10])], 10, true);
    assert_eq!(session(&app).index, 0);
    assert_eq!(spoken(&step).unwrap(), "window 10, 1 of 1");
    assert_eq!(activated(&app.switch_apps(&mut uia, false, 0)), Some(10));
    assert_eq!(activated(&app.switch_apps(&mut uia, true, 0)), Some(10));
}

#[test]
fn foreground_that_is_not_listed_promotes_nothing() {
    let mut app = App::start(&config(), false);
    let mut uia = ListProvider::new(1);
    open(&mut app, &mut uia, &desktop(), 99, false);
    assert_eq!(session(&app).keys, vec!["mail", "editor", "shell"]);
    assert!(app.window_mru.is_empty());
    // The topmost window stands for an app without history.
    assert_eq!(session(&app).apps[1].1, 20);
}

#[test]
fn hops_go_around_and_back() {
    let mut app = App::start(&config(), false);
    let mut uia = ListProvider::new(1);
    open(&mut app, &mut uia, &desktop(), 21, false);
    let step = app.switch_apps(&mut uia, false, 0);
    assert_eq!(activated(&step), Some(30));
    assert_eq!(spoken(&step).unwrap(), "window 30, 3 of 3");
    assert_eq!(uia.selection.selected, 2);
    assert_eq!(activated(&app.switch_apps(&mut uia, false, 0)), Some(21));
    assert_eq!(activated(&app.switch_apps(&mut uia, true, 0)), Some(30));
    assert_eq!(activated(&app.switch_apps(&mut uia, true, 0)), Some(10));
    assert_eq!(session(&app).index, 1);
    // Hops are no use.
    assert_eq!(app.app_mru, vec!["editor", "mail", "shell"]);
    assert_eq!(app.window_mru, vec![21]);
    assert_eq!(app.original_foreground, Some(21));
}

#[test]
fn accessible_list_leaves_the_apps_alone() {
    let mut app = App::start(&accessible(), false);
    let mut uia = ListProvider::new(1);
    let step = open(&mut app, &mut uia, &desktop(), 21, false);
    assert!(matches!(step, SwitchStep::Describe { .. }));
    assert_eq!(spoken(&step).unwrap(), "window 10, 2 of 3");
    assert_eq!(
        app.after_switch_apps(true),
        AfterSwitch { paint: true, focus_overlay: true }
    );
    let step = app.switch_apps(&mut uia, false, 0);
    assert!(matches!(step, SwitchStep::Select { .. }));
    assert_eq!(spoken(&step).unwrap(), "window 30, 3 of 3");
    assert_eq!(
        app.after_switch_apps(false),
        AfterSwitch { paint: true, focus_overlay: false }
    );
}

#[test]
fn announcements_can_be_turned_off() {
    let mut settings = config();
    settings.switch_apps_announce = false;
    let mut app = App::start(&settings, false);
    let mut uia = ListProvider::new(1);
    let step = open(&mut app, &mut uia, &desktop(), 21, false);
    assert_eq!(spoken(&step), None);
    assert_eq!(session(&app).announcement_for(true).unwrap(), "window 10, 2 of 3");
}

#[test]
fn announcement_counts_in_decimal() {
    let state = SwitchAppsState {
        apps: vec![(0, 0); 120],
        keys: vec!["k".to_string(); 120],
        names: vec!["n".to_string(); 120],
        index: 99,
    };
    assert_eq!(state.announcement_for(true).unwrap(), "n, 100 of 120");
    assert_eq!(state.announcement_for(false), None);
    assert_eq!(state.selected_window(), Some(0));
    let beyond = SwitchAppsState { apps: vec![], keys: vec![], names: vec![], index: 0 };
    assert_eq!(beyond.announcement_for(true), None);
    assert_eq!(beyond.selected_window(), None);
}

#[test]
fn commit_makes_the_app_and_its_window_the_most_recent() {
    let mut app = App::start(&config(), false);
    let mut uia = ListProvider::new(1);
    open(&mut app, &mut uia, &desktop(), 21, false);
    let closing = app.do_switch_app(&mut uia).unwrap();
    assert_eq!(closing.activate, Some(10));
    assert!(closing.minimize.is_empty());
    assert_eq!(closing.state.index, 1);
    assert_eq!(app.app_mru, vec!["mail", "editor", "shell"]);
    assert_eq!(app.window_mru, vec![10, 21]);
    assert!(app.switch_apps_state.is_none());
    assert_eq!(app.original_foreground, None);
    assert_eq!(uia.count(), 0);
    assert!(app.do_switch_app(&mut uia).is_none());
}

#[test]
fn quick_switches_go_back_and_forth() {
    let mut app = App::start(&config(), false);
    let mut uia = ListProvider::new(1);
    open(&mut app, &mut uia, &desktop(), 22, false);
    assert_eq!(app.do_switch_app(&mut uia).unwrap().activate, Some(10));
    // Switching back restores the window that was used last, not the topmost one.
    open(&mut app, &mut uia, &desktop(), 10, false);
    assert_eq!(app.do_switch_app(&mut uia).unwrap().activate, Some(22));
    open(&mut app, &mut uia, &desktop(), 22, false);
    assert_eq!(app.do_switch_app(&mut uia).unwrap().activate, Some(10));
}

#[test]
fn icons_are_loaded_once_and_destroyed_with_their_app() {
    let mut app = App::start(&config(), false);
    let mut uia = ListProvider::new(1);
    open(&mut app, &mut uia, &desktop(), 21, false);
    app.do_switch_app(&mut uia);
    let list = app.arrange_apps(&desktop(), 10).unwrap();
    let known: Vec<Option<isize>> = list.entries.iter().map(|e| e.icon).collect();
    // In the order mail, editor, shell.
    assert_eq!(known, vec![Some(1001), Some(1000), Some(1002)]);
    assert!(list.stale_icons.is_empty());
    let list = app.arrange_apps(&vec![group("shell", &[30]), group("new", &[40])], 30).unwrap();
    assert_eq!(list.stale_icons, vec![1000, 1001]);
    assert_eq!(app.cached_icons.len(), 1);
    assert_eq!(app.cached_icons[0].key, "shell");
    assert_eq!(app.app_mru, vec!["shell", "new"]);
    assert_eq!(app.window_mru, vec![30]);
    assert_eq!(list.entries[0].icon, Some(1002));
    assert_eq!(list.entries[1].icon, None);
    app.open_apps(&mut uia, &list.entries, &vec![7], rects(2), false);
    assert_eq!(session(&app).apps, vec![(1002, 30), (7, 40)]);
    assert_eq!(app.cached_icons[1].key, "new");
    assert_eq!(app.drain_icons(), vec![1002, 7]);
    assert!(app.cached_icons.is_empty());
}

#[test]
fn fallback_prefers_a_window_that_is_not_minimized() {
    let app = App::start(&config(), false);
    assert_eq!(app.pick_app_window(&vec![window(1, true), window(2, true), window(3, false)]), 3);
    assert_eq!(app.pick_app_window(&vec![window(1, false), window(2, false)]), 1);
    assert_eq!(app.pick_app_window(&vec![window(1, true), window(2, true)]), 1);
}

#[test]
fn history_beats_the_fallback() {
    let mut app = App::start(&config(), false);
    app.window_mru = vec![9, 2, 1];
    assert_eq!(app.pick_app_window(&vec![window(1, false), window(2, true)]), 2);
}

#[test]
fn window_listed_twice_gets_its_first_title() {
    let mut app = App::start(&config(), false);
    let mut twice = group("mail", &[10]);
    twice.windows.push(Window { id: 10, title: "again".to_string(), minimized: false });
    let list = app.arrange_apps(&vec![twice], 0).unwrap();
    assert_eq!(list.entries[0].name, "window 10");
}

#[test]
fn previews_are_minimized_again_except_the_chosen_one() {
    let mut app = App::start(&config(), false);
    let mut uia = ListProvider::new(1);
    open(&mut app, &mut uia, &desktop(), 21, false);
    app.activate_candidate(10, true);
    app.activate_candidate(30, true);
    app.activate_candidate(21, false);
    app.activate_candidate(10, true);
    assert_eq!(app.restored_windows, vec![10, 30]);
    let closing = app.do_switch_app(&mut uia).unwrap();
    assert_eq!(closing.activate, Some(10));
    assert_eq!(closing.minimize, vec![30]);
    assert!(app.restored_windows.is_empty());
}

#[test]
fn undo_previews_without_a_keeper() {
    let mut app = App::start(&config(), false);
    app.activate_candidate(4, true);
    app.activate_candidate(5, true);
    assert_eq!(app.undo_previews(None), vec![4, 5]);
    assert_eq!(app.undo_previews(None), Vec::<isize>::new());
}

#[test]
fn cancel_goes_back_to_where_the_user_came_from() {
    let mut app = App::start(&config(), false);
    let mut uia = ListProvider::new(1);
    open(&mut app, &mut uia, &desktop(), 21, false);
    app.activate_candidate(10, true);
    app.switch_apps(&mut uia, false, 0);
    let closing = app.cancel_switch_app(&mut uia, true, 30).unwrap();
    assert_eq!(closing.activate, Some(21));
    assert_eq!(closing.minimize, vec![10]);
    assert_eq!(app.app_mru, vec!["editor", "mail", "shell"]);
    assert_eq!(app.window_mru, vec![21]);
    assert_eq!(app.original_foreground, None);
    assert_eq!(uia.count(), 0);
    assert!(app.cancel_switch_app(&mut uia, true, 30).is_none());
}

#[test]
fn handing_over_to_switching_windows_keeps_the_foreground() {
    let mut app = App::start(&config(), false);
    let mut uia = ListProvider::new(1);
    open(&mut app, &mut uia, &desktop(), 21, false);
    app.activate_candidate(10, true);
    app.activate_candidate(30, true);
    let closing = app.cancel_switch_app(&mut uia, false, 30).unwrap();
    assert_eq!(closing.activate, None);
    assert_eq!(closing.minimize, vec![10]);
}

#[test]
fn click_commits_the_clicked_app() {
    let mut app = App::start(&config(), false);
    let mut uia = ListProvider::new(1);
    assert!(app.click(&mut uia, Some(0)).is_none());
    open(&mut app, &mut uia, &desktop(), 21, false);
    assert!(app.click(&mut uia, None).is_none());
    assert!(app.switch_apps_state.is_some());
    let closing = app.click(&mut uia, Some(2)).unwrap();
    assert_eq!(closing.activate, Some(30));
    assert_eq!(closing.state.index, 2);
    assert_eq!(app.app_mru, vec!["shell", "editor", "mail"]);
}

#[test]
fn click_beyond_the_apps_closes_without_a_choice() {
    let mut app = App::start(&config(), false);
    let mut uia = ListProvider::new(1);
    open(&mut app, &mut uia, &desktop(), 21, false);
    app.activate_candidate(10, true);
    let closing = app.click(&mut uia, Some(3)).unwrap();
    assert_eq!(closing.activate, None);
    assert_eq!(closing.minimize, vec![10]);
    assert_eq!(app.app_mru, vec!["editor", "mail", "shell"]);
}

#[test]
fn switching_windows_promotes_the_window_at_once() {
    let mut app = App::start(&config(), false);
    let mut uia = ListProvider::new(1);
    assert!(app.can_switch_windows(&desktop(), 20, false));
    assert_eq!(app.switch_windows(&desktop(), 20, false), Some(21));
    assert_eq!(app.window_mru, vec![21]);
    assert!(!app.switch_windows_state.modifier_released);
    // The app is shown with that window from now on.
    open(&mut app, &mut uia, &desktop(), 10, false);
    assert_eq!(session(&app).keys[1], "editor");
    assert_eq!(session(&app).apps[1].1, 21);
}

#[test]
fn switching_windows_of_a_lone_or_unknown_window_does_nothing() {
    let mut app = App::start(&config(), false);
    assert!(app.can_switch_windows(&desktop(), 10, false));
    assert_eq!(app.switch_windows(&desktop(), 10, false), None);
    assert_eq!(app.switch_windows(&desktop(), 99, true), None);
    assert!(app.switch_windows_state.cache.is_none());
    assert!(app.window_mru.is_empty());
}

#[test]
fn switching_windows_out_of_reach_is_told_beforehand() {
    let mut app = App::start(&config(), false);
    let many = vec![group("editor", &[1, 2, 3, 4, 5, 6])];
    for _ in 0..5 {
        app.switch_windows(&many, 1, false);
    }
    let few = vec![group("editor", &[1, 2, 3])];
    assert!(!app.can_switch_windows(&few, 1, true));
    assert!(app.can_switch_windows(&few, 1, false));
    assert_eq!(app.switch_windows(&few, 1, false), Some(1));
}

#[test]
fn switching_windows_works_on_the_selected_app() {
    let mut app = App::start(&config(), false);
    let mut uia = ListProvider::new(1);
    assert_eq!(app.switch_windows_target(42), 42);
    open(&mut app, &mut uia, &desktop(), 10, false);
    assert_eq!(app.switch_windows_target(42), 20);
}

#[test]
fn messages_become_tasks() {
    let mut app = App::start(&config(), false);
    assert_eq!(app.handle_message(Message::TrayIcon { clicked: true }), Task::ShowTrayMenu);
    assert_eq!(app.handle_message(Message::TrayIcon { clicked: false }), Task::Nothing);
    assert_eq!(
        app.handle_message(Message::SwitchApps { reverse: true }),
        Task::SwitchApps { reverse: true, opening: true }
    );
    assert_eq!(app.handle_message(Message::SwitchAppsDone), Task::CommitSwitch);
    assert_eq!(app.handle_message(Message::SwitchAppsCancel), Task::CancelSwitch);
    assert_eq!(
        app.handle_message(Message::SwitchWindows { reverse: false }),
        Task::SwitchWindows { reverse: false }
    );
    assert_eq!(app.handle_message(Message::GetRootObject), Task::ProvideRoot);
    assert_eq!(app.handle_message(Message::HitTest), Task::Nothing);
    assert_eq!(app.handle_message(Message::Click), Task::Click);
    assert_eq!(app.handle_message(Message::Exit), Task::Exit);
    assert_eq!(app.handle_message(Message::ToggleStartup), Task::ToggleStartup);
    assert_eq!(app.handle_message(Message::Configure), Task::Configure);
    assert_eq!(app.handle_message(Message::Resume), Task::ReinstallHooks);
    assert_eq!(app.handle_message(Message::EraseBackground), Task::Nothing);
    assert_eq!(app.handle_message(Message::RegisterTrayIcon), Task::RegisterTrayIcon);
    assert_eq!(app.handle_message(Message::Other), Task::Nothing);
}

#[test]
fn message_in_a_session_does_not_open_one() {
    let mut app = App::start(&config(), false);
    let mut uia = ListProvider::new(1);
    open(&mut app, &mut uia, &desktop(), 10, false);
    assert_eq!(
        app.handle_message(Message::SwitchApps { reverse: false }),
        Task::SwitchApps { reverse: false, opening: false }
    );
}

#[test]
fn releasing_the_modifier_ends_the_cycle() {
    let mut app = App::start(&config(), false);
    app.switch_windows(&desktop(), 20, false);
    assert!(!app.switch_windows_state.modifier_released);
    assert_eq!(app.handle_message(Message::SwitchWindowsDone), Task::Nothing);
    assert!(app.switch_windows_state.modifier_released);
}

#[test]
fn without_a_tray_icon_there_is_none_to_show_or_register() {
    let mut settings = config();
    settings.trayicon = false;
    let mut app = App::start(&settings, false);
    assert_eq!(app.handle_message(Message::TrayIcon { clicked: true }), Task::Nothing);
    assert_eq!(app.handle_message(Message::RegisterTrayIcon), Task::Nothing);
    assert_eq!(app.set_trayicon(TrayAttempt::Failed { exists: false }), None);
}

#[test]
fn tray_icon_is_tried_again_only_if_it_is_missing() {
    let app = App::start(&config(), false);
    assert_eq!(TRAYICON_RETRY_SECS, 3);
    assert_eq!(app.set_trayicon(TrayAttempt::Registered), None);
    assert_eq!(app.set_trayicon(TrayAttempt::Failed { exists: true }), None);
    assert_eq!(app.set_trayicon(TrayAttempt::Failed { exists: false }), Some(3));
}

#[test]
fn reloading_takes_over_what_changed() {
    let mut app = App::start(&config(), false);
    assert!(matches!(
        app.reload_config(Err("bad file".to_string())),
        Reload::Alert(text) if text == "bad file"
    ));
    assert!(matches!(app.reload_config(Ok(config())), Reload::Unchanged));
    assert!(matches!(app.reload_config(Ok(accessible())), Reload::Reinstall));
    assert!(app.config.switch_apps_accessible_list);
}

#[test]
fn full_round_of_hops_selects_every_app_once() {
    for reverse in [false, true] {
        let mut app = App::start(&config(), false);
        let mut uia = ListProvider::new(1);
        open(&mut app, &mut uia, &desktop(), 21, false);
        let mut selected = vec![];
        for _ in 0..3 {
            app.switch_apps(&mut uia, reverse, 0);
            selected.push(session(&app).index);
        }
        assert_eq!(selected, if reverse { vec![0, 2, 1] } else { vec![2, 0, 1] });
    }
}

#[test]
fn session_puts_its_previews_back_in_order() {
    let mut app = App::start(&config(), false);
    let mut uia = ListProvider::new(1);
    let mut step = open(&mut app, &mut uia, &desktop(), 21, false);
    // Every window but 21 turns out to be minimized at each of five activations.
    for _ in 0..5 {
        let hwnd = activated(&step).unwrap();
        app.activate_candidate(hwnd, hwnd != 21);
        step = app.switch_apps(&mut uia, false, 0);
    }
    assert_eq!(app.restored_windows, vec![10, 30]);
    let closing = app.cancel_switch_app(&mut uia, true, 0).unwrap();
    assert_eq!(closing.minimize, vec![10, 30]);
    assert_eq!(app.undo_previews(None), Vec::<isize>::new());
}

#[test]
fn tasks_end_the_session_each_in_its_way() {
    for task in [Task::CommitSwitch, Task::CancelSwitch, Task::SwitchWindows { reverse: false }] {
        let mut app = App::start(&config(), false);
        let mut uia = ListProvider::new(1);
        open(&mut app, &mut uia, &desktop(), 21, false);
        app.activate_candidate(10, true);
        app.activate_candidate(30, true);
        let closing = app.end_session(&mut uia, task, 30).unwrap();
        let (activate, minimize) = match task {
            Task::CommitSwitch => (Some(10), vec![30]),
            Task::CancelSwitch => (Some(21), vec![10, 30]),
            _ => (None, vec![10]),
        };
        assert_eq!(closing.activate, activate);
        assert_eq!(closing.minimize, minimize);
        assert!(app.switch_apps_state.is_none());
        assert_eq!(uia.count(), 0);
        assert_eq!(app.app_mru[0], if task == Task::CommitSwitch { "mail" } else { "editor" });
        assert!(app.end_session(&mut uia, task, 30).is_none());
    }
}

#[test]
fn other_tasks_leave_the_session_open() {
    let mut app = App::start(&config(), false);
    let mut uia = ListProvider::new(1);
    open(&mut app, &mut uia, &desktop(), 21, false);
    let task = Task::SwitchApps { reverse: false, opening: false };
    assert!(app.end_session(&mut uia, task, 30).is_none());
    assert!(app.end_session(&mut uia, Task::Nothing, 30).is_none());
    assert_eq!(uia.count(), 3);
    assert_eq!(session(&app).index, 1);
}

#[test]
fn reloading_the_same_settings_keeps_them_as_they_are_listed() {
    let mut settings = config();
    settings.switch_apps_override_icons.push(IconOverride {
        app: "editor".to_string(),
        icon: "editor.ico".to_string(),
    });
    let mut app = App::start(&settings, false);
    let mut turned = settings.clone();
    turned.switch_apps_override_icons.reverse();
    assert!(matches!(app.reload_config(Ok(turned)), Reload::Unchanged));
    assert_eq!(app.config.switch_apps_override_icons[0].app, "mail");
}
