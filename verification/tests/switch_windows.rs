//! Cycling through the windows of one app.
use window_switcher::desktop::{AppWindows, Window};
use window_switcher::switch_windows::SwitchWindowsState;

fn app(key: &str, ids: &[isize]) -> AppWindows {
    let mut windows = Vec::new();
    for id in ids {
        windows.push(Window { id: *id, title: format!("window {id}"), minimized: false });
    }
    AppWindows { key: key.to_string(), windows }
}

fn cached_order(state: &SwitchWindowsState) -> Vec<isize> {
    state.cache.as_ref().unwrap().windows.clone()
}

#[test]
fn first_press_goes_to_the_second_window() {
    let mut state = SwitchWindowsState::new();
    assert!(state.cache.is_none());
    assert!(state.modifier_released);
    let editor = app("editor", &[1, 2, 3]);
    assert!(state.can_advance(&editor, false));
    assert_eq!(state.advance(&editor, false), 2);
    let cache = state.cache.as_ref().unwrap();
    assert_eq!(cache.key, "editor");
    assert_eq!(cache.id, 1);
    assert_eq!(cache.index, 1);
    assert_eq!(cache.windows, vec![1, 2, 3]);
    assert!(!state.modifier_released);
}

#[test]
fn first_press_backwards_goes_to_the_second_window_too() {
    let mut state = SwitchWindowsState::new();
    assert_eq!(state.advance(&app("editor", &[1, 2, 3]), true), 2);
}

#[test]
fn two_windows_take_turns() {
    let mut state = SwitchWindowsState::new();
    assert_eq!(state.advance(&app("editor", &[1, 2]), false), 2);
    assert_eq!(state.advance(&app("editor", &[2, 1]), false), 1);
    assert_eq!(state.advance(&app("editor", &[1, 2]), true), 2);
}

#[test]
fn presses_visit_every_window_in_turn() {
    let mut state = SwitchWindowsState::new();
    assert_eq!(state.advance(&app("editor", &[1, 2, 3]), false), 2);
    // Each activation brings its window to the top.
    assert_eq!(state.advance(&app("editor", &[2, 1, 3]), false), 3);
    assert_eq!(state.advance(&app("editor", &[3, 2, 1]), false), 1);
    assert_eq!(state.advance(&app("editor", &[1, 3, 2]), false), 2);
    assert_eq!(cached_order(&state), vec![1, 2, 3]);
    assert_eq!(state.cache.as_ref().unwrap().id, 1);
}

#[test]
fn step_back_undoes_a_step() {
    let mut state = SwitchWindowsState::new();
    assert_eq!(state.advance(&app("editor", &[1, 2, 3]), false), 2);
    assert_eq!(state.advance(&app("editor", &[2, 1, 3]), false), 3);
    assert_eq!(state.advance(&app("editor", &[3, 2, 1]), true), 2);
    assert_eq!(state.advance(&app("editor", &[2, 3, 1]), true), 1);
    assert_eq!(state.advance(&app("editor", &[1, 2, 3]), true), 3);
}

#[test]
fn next_press_after_release_goes_back_to_the_start() {
    let mut state = SwitchWindowsState::new();
    assert_eq!(state.advance(&app("editor", &[1, 2, 3]), false), 2);
    assert_eq!(state.advance(&app("editor", &[2, 1, 3]), false), 3);
    state.modifier_released = true;
    // 1 started the cycle, and 3 is on top now.
    assert_eq!(state.advance(&app("editor", &[3, 2, 1]), false), 1);
    let cache = state.cache.as_ref().unwrap();
    assert_eq!(cache.id, 3);
    assert_eq!(cache.index, 2);
    assert_eq!(cache.windows, vec![3, 2, 1]);
}

#[test]
fn release_with_the_start_on_top_or_gone_begins_anew() {
    let mut state = SwitchWindowsState::new();
    state.advance(&app("editor", &[1, 2, 3]), false);
    state.modifier_released = true;
    assert_eq!(state.advance(&app("editor", &[1, 3, 2]), false), 3);
    state.modifier_released = true;
    // 1 started that cycle and was closed since.
    assert_eq!(state.advance(&app("editor", &[3, 2, 4]), false), 2);
}

#[test]
fn another_app_begins_anew() {
    let mut state = SwitchWindowsState::new();
    state.advance(&app("editor", &[1, 2, 3]), false);
    assert_eq!(state.advance(&app("browser", &[7, 8, 9]), false), 8);
    assert_eq!(state.cache.as_ref().unwrap().key, "browser");
}

#[test]
fn windows_opened_during_a_cycle_come_last() {
    let mut state = SwitchWindowsState::new();
    state.advance(&app("editor", &[1, 2, 3]), false);
    assert_eq!(state.advance(&app("editor", &[9, 2, 1, 3]), false), 3);
    assert_eq!(cached_order(&state), vec![1, 2, 3, 9]);
    assert_eq!(state.advance(&app("editor", &[3, 9, 2, 1]), false), 9);
}

#[test]
fn several_new_windows_are_shuffled_as_the_set_leaves_them() {
    let mut state = SwitchWindowsState::new();
    state.advance(&app("editor", &[1, 2, 3]), false);
    // Taking 1, 2 and 3 out of {7, 1, 8, 2, 3, 9} moves the last one into each gap.
    assert_eq!(state.advance(&app("editor", &[7, 1, 8, 2, 3, 9]), false), 3);
    assert_eq!(cached_order(&state), vec![1, 2, 3, 7, 9, 8]);
}

#[test]
fn window_listed_twice_is_cycled_once() {
    let mut state = SwitchWindowsState::new();
    state.advance(&app("editor", &[1, 2, 3]), false);
    assert_eq!(state.advance(&app("editor", &[4, 2, 4, 3, 1]), false), 3);
    assert_eq!(cached_order(&state), vec![1, 2, 3, 4]);
}

#[test]
fn closed_windows_leave_the_cycle() {
    let mut state = SwitchWindowsState::new();
    state.advance(&app("editor", &[1, 2, 3, 4]), false);
    assert_eq!(state.advance(&app("editor", &[2, 3, 4]), false), 4);
    assert_eq!(cached_order(&state), vec![2, 3, 4]);
}

#[test]
fn stepping_back_beyond_the_last_window_is_not_possible() {
    let mut state = SwitchWindowsState::new();
    state.advance(&app("editor", &[1, 2, 3, 4, 5, 6]), false);
    for _ in 0..4 {
        state.advance(&app("editor", &[1, 2, 3, 4, 5, 6]), false);
    }
    assert_eq!(state.cache.as_ref().unwrap().index, 5);
    // With three windows left, the one before the sixth is out of reach.
    let fewer = app("editor", &[1, 2, 3]);
    assert!(!state.can_advance(&fewer, true));
    assert!(state.can_advance(&fewer, false));
    assert_eq!(state.advance(&fewer, false), 1);
}

#[test]
fn full_round_backwards_meets_every_window_once() {
    let mut state = SwitchWindowsState::new();
    let mut on_top = vec![1, 2, 3, 4];
    assert_eq!(state.advance(&app("editor", &on_top), false), 2);
    on_top = vec![2, 1, 3, 4];
    let mut met = vec![];
    for _ in 0..4 {
        let next = state.advance(&app("editor", &on_top), true);
        met.push(next);
        on_top.retain(|id| *id != next);
        on_top.insert(0, next);
    }
    assert_eq!(met, vec![1, 4, 3, 2]);
    assert_eq!(state.cache.as_ref().unwrap().index, 1);
    assert_eq!(cached_order(&state), vec![1, 2, 3, 4]);
}
