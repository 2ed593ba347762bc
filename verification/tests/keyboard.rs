//! Which messages keystrokes post.
use window_switcher::config::{Hotkey, SWITCH_APPS_HOTKEY_ID, SWITCH_WINDOWS_HOTKEY_ID};
use window_switcher::keyboard::{
    KeyOutcome, KeyboardListener, Post, LLKHF_UP, SCANCODE_DOWN, SCANCODE_ESCAPE, SCANCODE_LEFT,
    SCANCODE_LSHIFT, SCANCODE_RIGHT, SCANCODE_RSHIFT, SCANCODE_UP,
};
use window_switcher::message::{
    Message, WM_USER_SWITCH_APPS, WM_USER_SWITCH_APPS_CANCEL, WM_USER_SWITCH_APPS_DONE,
    WM_USER_SWITCH_WINDOWS, WM_USER_SWITCH_WINDOWS_DONE,
};

const ALT: u32 = 0x38;
const TAB: u32 = 0x0f;
const BACKTICK: u32 = 0x29;
const LETTER: u32 = 0x1e;

fn hotkeys() -> Vec<Hotkey> {
    vec![
        Hotkey { id: SWITCH_WINDOWS_HOTKEY_ID, modifier: vec![ALT], code: BACKTICK },
        Hotkey { id: SWITCH_APPS_HOTKEY_ID, modifier: vec![ALT], code: TAB },
    ]
}

fn keyboard() -> KeyboardListener {
    let mut keyboard = KeyboardListener::new();
    keyboard.init(77, &hotkeys());
    keyboard
}

fn press(keyboard: &mut KeyboardListener, code: u32) -> KeyOutcome {
    keyboard.keyboard_proc(code, 0, false)
}

fn release(keyboard: &mut KeyboardListener, code: u32) -> KeyOutcome {
    keyboard.keyboard_proc(code, LLKHF_UP, false)
}

fn post(msg: u32, lparam: isize) -> Vec<Post> {
    vec![Post { msg, lparam }]
}

#[test]
fn listener_starts_blank() {
    let keyboard = KeyboardListener::new();
    assert_eq!(keyboard.window, 0);
    assert!(keyboard.hotkeys.is_empty());
    assert!(!keyboard.is_shift_pressed);
    assert!(!keyboard.is_switching_apps);
    assert_eq!(keyboard.previous_keycode, 0);
}

#[test]
fn init_takes_on_the_hotkeys_and_keeps_the_rest() {
    let mut keyboard = keyboard();
    assert_eq!(keyboard.window, 77);
    assert_eq!(keyboard.hotkeys.len(), 2);
    assert_eq!(keyboard.hotkeys[1].hotkey.id, SWITCH_APPS_HOTKEY_ID);
    assert_eq!(keyboard.hotkeys[1].hotkey.modifier, vec![ALT]);
    assert_eq!(keyboard.hotkeys[1].hotkey.code, TAB);
    press(&mut keyboard, SCANCODE_LSHIFT);
    press(&mut keyboard, ALT);
    press(&mut keyboard, TAB);
    keyboard.init(78, &hotkeys());
    assert_eq!(keyboard.window, 78);
    assert!(!keyboard.hotkeys[1].is_modifier_pressed);
    assert!(keyboard.is_shift_pressed);
    assert!(keyboard.is_switching_apps);
    assert_eq!(keyboard.previous_keycode, TAB);
}

#[test]
fn hotkey_acts_while_its_modifier_is_held() {
    let mut keyboard = keyboard();
    let outcome = press(&mut keyboard, TAB);
    assert!(outcome.posts.is_empty());
    assert!(!outcome.consumed);
    let outcome = press(&mut keyboard, ALT);
    assert!(outcome.posts.is_empty());
    assert!(!outcome.consumed);
    let outcome = press(&mut keyboard, TAB);
    assert_eq!(outcome.posts, post(WM_USER_SWITCH_APPS, 0));
    assert!(outcome.consumed);
    assert!(keyboard.is_switching_apps);
    let outcome = release(&mut keyboard, TAB);
    assert!(outcome.posts.is_empty());
    assert!(!outcome.consumed);
}

#[test]
fn either_shift_reverses() {
    for shift in [SCANCODE_LSHIFT, SCANCODE_RSHIFT] {
        let mut keyboard = keyboard();
        press(&mut keyboard, ALT);
        press(&mut keyboard, shift);
        assert_eq!(press(&mut keyboard, TAB).posts, post(WM_USER_SWITCH_APPS, 1));
        assert_eq!(press(&mut keyboard, BACKTICK).posts, post(WM_USER_SWITCH_WINDOWS, 1));
        release(&mut keyboard, shift);
        assert_eq!(press(&mut keyboard, TAB).posts, post(WM_USER_SWITCH_APPS, 0));
    }
}

#[test]
fn releasing_the_modifier_ends_the_hotkey_that_acted_last() {
    let mut keyboard = keyboard();
    press(&mut keyboard, ALT);
    press(&mut keyboard, TAB);
    let outcome = release(&mut keyboard, ALT);
    assert_eq!(outcome.posts, post(WM_USER_SWITCH_APPS_DONE, 0));
    assert!(!outcome.consumed);
    assert!(!keyboard.is_switching_apps);
    press(&mut keyboard, ALT);
    assert_eq!(press(&mut keyboard, BACKTICK).posts, post(WM_USER_SWITCH_WINDOWS, 0));
    assert_eq!(release(&mut keyboard, ALT).posts, post(WM_USER_SWITCH_WINDOWS_DONE, 0));
}

#[test]
fn releasing_an_idle_modifier_posts_nothing() {
    let mut keyboard = keyboard();
    press(&mut keyboard, ALT);
    assert!(release(&mut keyboard, ALT).posts.is_empty());
}

#[test]
fn hotkeys_with_one_key_are_ended_together_and_each_once() {
    let mut keyboard = KeyboardListener::new();
    keyboard.init(
        1,
        &vec![
            Hotkey { id: SWITCH_APPS_HOTKEY_ID, modifier: vec![ALT], code: TAB },
            Hotkey { id: SWITCH_WINDOWS_HOTKEY_ID, modifier: vec![ALT], code: TAB },
            Hotkey { id: SWITCH_APPS_HOTKEY_ID, modifier: vec![ALT], code: TAB },
            Hotkey { id: 9, modifier: vec![ALT], code: TAB },
        ],
    );
    press(&mut keyboard, ALT);
    press(&mut keyboard, TAB);
    let outcome = release(&mut keyboard, ALT);
    assert_eq!(
        outcome.posts,
        vec![
            Post { msg: WM_USER_SWITCH_APPS_DONE, lparam: 0 },
            Post { msg: WM_USER_SWITCH_WINDOWS_DONE, lparam: 0 },
        ]
    );
}

#[test]
fn escape_cancels_and_nothing_is_committed_after_it() {
    let mut keyboard = keyboard();
    press(&mut keyboard, ALT);
    press(&mut keyboard, TAB);
    let outcome = press(&mut keyboard, SCANCODE_ESCAPE);
    assert_eq!(outcome.posts, post(WM_USER_SWITCH_APPS_CANCEL, 0));
    assert!(outcome.consumed);
    assert!(!keyboard.is_switching_apps);
    assert_eq!(keyboard.previous_keycode, SCANCODE_ESCAPE);
    assert!(release(&mut keyboard, ALT).posts.is_empty());
}

#[test]
fn arrows_move_the_selection_while_switching_only() {
    let mut keyboard = keyboard();
    press(&mut keyboard, ALT);
    let outcome = press(&mut keyboard, SCANCODE_RIGHT);
    assert!(outcome.posts.is_empty());
    assert!(!outcome.consumed);
    press(&mut keyboard, TAB);
    assert_eq!(press(&mut keyboard, SCANCODE_RIGHT).posts, post(WM_USER_SWITCH_APPS, 0));
    assert_eq!(press(&mut keyboard, SCANCODE_DOWN).posts, post(WM_USER_SWITCH_APPS, 0));
    assert_eq!(press(&mut keyboard, SCANCODE_UP).posts, post(WM_USER_SWITCH_APPS, 1));
    assert_eq!(press(&mut keyboard, SCANCODE_LEFT).posts, post(WM_USER_SWITCH_APPS, 1));
    // The arrows leave the hotkey that acted last as it is.
    assert_eq!(keyboard.previous_keycode, TAB);
    assert_eq!(release(&mut keyboard, ALT).posts, post(WM_USER_SWITCH_APPS_DONE, 0));
}

#[test]
fn switching_windows_ends_the_arrows() {
    let mut keyboard = keyboard();
    press(&mut keyboard, ALT);
    press(&mut keyboard, TAB);
    press(&mut keyboard, BACKTICK);
    assert!(!keyboard.is_switching_apps);
    assert!(press(&mut keyboard, SCANCODE_UP).posts.is_empty());
}

#[test]
fn blacklisted_app_keeps_its_own_keys() {
    let mut keyboard = keyboard();
    keyboard.keyboard_proc(ALT, 0, true);
    let outcome = keyboard.keyboard_proc(BACKTICK, 0, true);
    assert!(outcome.posts.is_empty());
    assert!(!outcome.consumed);
    let outcome = keyboard.keyboard_proc(TAB, 0, true);
    assert_eq!(outcome.posts, post(WM_USER_SWITCH_APPS, 0));
}

#[test]
fn other_keys_pass() {
    let mut keyboard = keyboard();
    press(&mut keyboard, ALT);
    press(&mut keyboard, TAB);
    let outcome = press(&mut keyboard, LETTER);
    assert!(outcome.posts.is_empty());
    assert!(!outcome.consumed);
    assert!(keyboard.is_switching_apps);
}

#[test]
fn other_flags_do_not_release() {
    let mut keyboard = keyboard();
    // Alt is down, as the context flag of every keystroke says.
    keyboard.keyboard_proc(ALT, 0x20, false);
    assert!(keyboard.keyboard_proc(TAB, 0x20, false).consumed);
    assert_eq!(
        keyboard.keyboard_proc(ALT, 0xa0, false).posts,
        post(WM_USER_SWITCH_APPS_DONE, 0)
    );
}

#[test]
fn shift_as_a_modifier_sets_nothing_off() {
    let mut keyboard = KeyboardListener::new();
    keyboard.init(
        1,
        &vec![Hotkey { id: SWITCH_APPS_HOTKEY_ID, modifier: vec![SCANCODE_LSHIFT], code: TAB }],
    );
    assert!(press(&mut keyboard, SCANCODE_LSHIFT).posts.is_empty());
    assert!(keyboard.is_shift_pressed);
    assert_eq!(press(&mut keyboard, TAB).posts, post(WM_USER_SWITCH_APPS, 1));
}

#[test]
fn what_a_hotkey_posts_is_understood() {
    let mut keyboard = keyboard();
    press(&mut keyboard, ALT);
    press(&mut keyboard, SCANCODE_LSHIFT);
    let posts = press(&mut keyboard, TAB).posts;
    assert_eq!(
        Message::decode(posts[0].msg, 0, posts[0].lparam, 0xc000),
        Message::SwitchApps { reverse: true }
    );
    let posts = press(&mut keyboard, SCANCODE_ESCAPE).posts;
    assert_eq!(
        Message::decode(posts[0].msg, 0, posts[0].lparam, 0xc000),
        Message::SwitchAppsCancel
    );
}
