//! The hotkeys: which messages a keystroke posts.
//!
//! The keyboard hook sees every keystroke on the system. It must never block, so
//! all it does is update this state and post a message.
use crate::config::{
    hotkey_models, Hotkey, HotkeyModel, SWITCH_APPS_HOTKEY_ID, SWITCH_WINDOWS_HOTKEY_ID,
};
use crate::id_set::{distinct, ids, insert_id, lemma_distinct, list_ids, no_ids};
use crate::message::{
    WM_USER_SWITCH_APPS, WM_USER_SWITCH_APPS_CANCEL, WM_USER_SWITCH_APPS_DONE,
    WM_USER_SWITCH_WINDOWS, WM_USER_SWITCH_WINDOWS_DONE,
};
use crate::seqs::{
    lemma_filter_congruence, lemma_filter_contains, lemma_filter_no_duplicates, lemma_filter_none,
    lemma_filter_positions, lemma_filter_take, lemma_first_of_filter, lemma_push_contains,
};
use vstd::prelude::*;

verus! {

pub const SCANCODE_LSHIFT: u32 = 42;

pub const SCANCODE_RSHIFT: u32 = 54;

pub const SCANCODE_ESCAPE: u32 = 0x01;

pub const SCANCODE_UP: u32 = 0x48;

pub const SCANCODE_LEFT: u32 = 0x4b;

pub const SCANCODE_RIGHT: u32 = 0x4d;

pub const SCANCODE_DOWN: u32 = 0x50;

/// Flag of a keystroke that releases its key.
pub const LLKHF_UP: u32 = 0x80;

/// A hotkey, and whether its modifier is held down.
#[derive(Debug)]
pub struct HotKeyState {
    pub hotkey: Hotkey,
    pub is_modifier_pressed: bool,
}

/// What a `HotKeyState` says.
pub struct HotKeyModel {
    pub hotkey: HotkeyModel,
    pub is_modifier_pressed: bool,
}

impl View for HotKeyState {
    type V = HotKeyModel;

    open spec fn view(&self) -> HotKeyModel {
        HotKeyModel { hotkey: self.hotkey@, is_modifier_pressed: self.is_modifier_pressed }
    }
}

/// The hotkeys of a list, with their modifiers.
pub open spec fn key_models(hotkeys: Seq<HotKeyState>) -> Seq<HotKeyModel> {
    hotkeys.map_values(|h: HotKeyState| h@)
}

/// What the keyboard hook knows.
#[derive(Debug)]
pub struct KeyboardListener {
    /// Handle of the window that messages are posted to.
    pub window: isize,
    pub hotkeys: Vec<HotKeyState>,
    pub is_shift_pressed: bool,
    pub is_switching_apps: bool,
    /// Scan code of the last hotkey that acted.
    pub previous_keycode: u32,
}

/// What a `KeyboardListener` says.
pub struct KeyboardModel {
    pub window: isize,
    pub hotkeys: Seq<HotKeyModel>,
    pub is_shift_pressed: bool,
    pub is_switching_apps: bool,
    pub previous_keycode: u32,
}

impl View for KeyboardListener {
    type V = KeyboardModel;

    open spec fn view(&self) -> KeyboardModel {
        KeyboardModel {
            window: self.window,
            hotkeys: key_models(self.hotkeys@),
            is_shift_pressed: self.is_shift_pressed,
            is_switching_apps: self.is_switching_apps,
            previous_keycode: self.previous_keycode,
        }
    }
}

/// A message to post; its first parameter is always 0.
#[derive(Clone, Copy, Debug, PartialEq, Eq, Structural)]
pub struct Post {
    pub msg: u32,
    pub lparam: isize,
}

/// What a keystroke leads to.
pub struct KeyOutcome {
    /// The messages to post, in order.
    pub posts: Vec<Post>,
    /// Whether the keystroke goes no further.
    pub consumed: bool,
}

/// The keystroke presses its key.
pub open spec fn presses(flags: u32) -> bool {
    flags & LLKHF_UP == 0
}

pub open spec fn is_shift(scan_code: u32) -> bool {
    scan_code == SCANCODE_LSHIFT || scan_code == SCANCODE_RSHIFT
}

pub open spec fn is_arrow(scan_code: u32) -> bool {
    ||| scan_code == SCANCODE_UP
    ||| scan_code == SCANCODE_LEFT
    ||| scan_code == SCANCODE_RIGHT
    ||| scan_code == SCANCODE_DOWN
}

/// The key is one of the hotkey's modifier keys.
pub open spec fn modifies(key: HotKeyModel, scan_code: u32) -> bool {
    key.hotkey.modifier.contains(scan_code)
}

/// The key is a modifier key of some hotkey.
pub open spec fn is_modifier(keyboard: KeyboardModel, scan_code: u32) -> bool {
    exists|i: int|
        0 <= i < keyboard.hotkeys.len() && modifies(#[trigger] keyboard.hotkeys[i], scan_code)
}

/// The hotkey with its modifier as the keystroke leaves it.
pub open spec fn with_modifier(key: HotKeyModel, scan_code: u32, flags: u32) -> HotKeyModel {
    HotKeyModel {
        is_modifier_pressed: if modifies(key, scan_code) {
            presses(flags)
        } else {
            key.is_modifier_pressed
        },
        ..key
    }
}

/// Shift as the keystroke leaves it.
pub open spec fn shift_after(keyboard: KeyboardModel, scan_code: u32, flags: u32) -> bool {
    if is_shift(scan_code) {
        presses(flags)
    } else {
        keyboard.is_shift_pressed
    }
}

/// The ids of the hotkeys that the keystroke ends, each once: it releases a
/// modifier key of the hotkey that acted last.
pub open spec fn ended(keyboard: KeyboardModel, scan_code: u32, flags: u32) -> Seq<u32> {
    if presses(flags) {
        Seq::empty()
    } else {
        distinct(
            keyboard.hotkeys.filter(
                |k: HotKeyModel|
                    modifies(k, scan_code) && k.hotkey.code == keyboard.previous_keycode,
            ).map_values(|k: HotKeyModel| k.hotkey.id),
        )
    }
}

/// The key makes the hotkey act, given that its modifier is held down.
pub open spec fn acts_on(
    keyboard: KeyboardModel,
    key: HotKeyModel,
    scan_code: u32,
    foreground_in_blacklist: bool,
) -> bool {
    let id = key.hotkey.id;
    if scan_code == key.hotkey.code {
        ||| id == SWITCH_APPS_HOTKEY_ID
        ||| id == SWITCH_WINDOWS_HOTKEY_ID && !foreground_in_blacklist
    } else {
        &&& id == SWITCH_APPS_HOTKEY_ID
        &&& scan_code == SCANCODE_ESCAPE || is_arrow(scan_code) && keyboard.is_switching_apps
    }
}

/// The hotkey that the keystroke sets off: the first one whose modifier is held
/// down and that the key makes act. A modifier key sets nothing off.
pub open spec fn triggered(
    keyboard: KeyboardModel,
    scan_code: u32,
    flags: u32,
    foreground_in_blacklist: bool,
) -> Option<HotkeyModel> {
    let ready = keyboard.hotkeys.filter(
        |k: HotKeyModel|
            k.is_modifier_pressed && acts_on(keyboard, k, scan_code, foreground_in_blacklist),
    );
    if presses(flags) && !is_modifier(keyboard, scan_code) && ready.len() > 0 {
        Some(ready.first().hotkey)
    } else {
        None
    }
}

/// The message that tells that a hotkey was ended, for the hotkeys that have one.
pub open spec fn done_post(id: u32) -> Option<Post> {
    if id == SWITCH_APPS_HOTKEY_ID {
        Some(Post { msg: WM_USER_SWITCH_APPS_DONE, lparam: 0 })
    } else if id == SWITCH_WINDOWS_HOTKEY_ID {
        Some(Post { msg: WM_USER_SWITCH_WINDOWS_DONE, lparam: 0 })
    } else {
        None
    }
}

/// The messages for a sequence of ended hotkeys.
pub open spec fn done_posts(ended: Seq<u32>) -> Seq<Post> {
    ended.filter_map(|id: u32| done_post(id))
}

/// The message that makes the hotkey act.
pub open spec fn action_post(hotkey: HotkeyModel, scan_code: u32, shift: bool) -> Post {
    let backwards: isize = if shift {
        1
    } else {
        0
    };
    if hotkey.id == SWITCH_WINDOWS_HOTKEY_ID {
        Post { msg: WM_USER_SWITCH_WINDOWS, lparam: backwards }
    } else if scan_code == hotkey.code {
        Post { msg: WM_USER_SWITCH_APPS, lparam: backwards }
    } else if scan_code == SCANCODE_ESCAPE {
        Post { msg: WM_USER_SWITCH_APPS_CANCEL, lparam: 0 }
    } else {
        Post {
            msg: WM_USER_SWITCH_APPS,
            lparam: if scan_code == SCANCODE_UP || scan_code == SCANCODE_LEFT {
                1
            } else {
                0
            },
        }
    }
}

/// The messages that the keystroke posts.
pub open spec fn posts_of(
    keyboard: KeyboardModel,
    scan_code: u32,
    flags: u32,
    foreground_in_blacklist: bool,
) -> Seq<Post> {
    let done = done_posts(ended(keyboard, scan_code, flags));
    match triggered(keyboard, scan_code, flags, foreground_in_blacklist) {
        Some(hotkey) => done.push(
            action_post(hotkey, scan_code, shift_after(keyboard, scan_code, flags)),
        ),
        None => done,
    }
}

/// The keyboard as the keystroke leaves it.
pub open spec fn after_keystroke(
    keyboard: KeyboardModel,
    scan_code: u32,
    flags: u32,
    foreground_in_blacklist: bool,
) -> KeyboardModel {
    KeyboardModel {
        window: keyboard.window,
        hotkeys: keyboard.hotkeys.map_values(
            |k: HotKeyModel| with_modifier(k, scan_code, flags),
        ),
        is_shift_pressed: shift_after(keyboard, scan_code, flags),
        is_switching_apps: match triggered(keyboard, scan_code, flags, foreground_in_blacklist) {
            Some(hotkey) => action_post(hotkey, scan_code, false).msg == WM_USER_SWITCH_APPS,
            None => keyboard.is_switching_apps && !ended(keyboard, scan_code, flags).contains(
                SWITCH_APPS_HOTKEY_ID,
            ),
        },
        previous_keycode: match triggered(keyboard, scan_code, flags, foreground_in_blacklist) {
            Some(hotkey) => if scan_code == hotkey.code || scan_code == SCANCODE_ESCAPE {
                scan_code
            } else {
                keyboard.previous_keycode
            },
            None => keyboard.previous_keycode,
        },
    }
}

/// The keyboard listening for `hotkeys`, none of whose modifiers is held down yet.
pub open spec fn listening(
    keyboard: KeyboardModel,
    window: isize,
    hotkeys: Seq<HotkeyModel>,
) -> KeyboardModel {
    KeyboardModel {
        window,
        hotkeys: hotkeys.map_values(
            |h: HotkeyModel| HotKeyModel { hotkey: h, is_modifier_pressed: false },
        ),
        ..keyboard
    }
}

fn has_code(codes: &Vec<u32>, code: u32) -> (found: bool)
    ensures
        found == codes@.contains(code),
{
    let mut i: usize = 0;
    while i < codes.len()
        invariant
            i <= codes@.len(),
            forall|j: int| 0 <= j < i ==> codes@[j] != code,
        decreases codes@.len() - i,
    {
        if codes[i] == code {
            return true;
        }
        i += 1;
    }
    false
}

impl KeyboardListener {
    /// The keyboard before any hook is installed.
    pub fn new() -> (keyboard: Self)
        ensures
            keyboard@ == (KeyboardModel {
                window: 0,
                hotkeys: Seq::empty(),
                is_shift_pressed: false,
                is_switching_apps: false,
                previous_keycode: 0,
            }),
    {
        let keyboard = KeyboardListener {
            window: 0,
            hotkeys: Vec::new(),
            is_shift_pressed: false,
            is_switching_apps: false,
            previous_keycode: 0,
        };
        assert(key_models(keyboard.hotkeys@) =~= Seq::empty());
        keyboard
    }

    /// Takes on the window and the hotkeys with which a hook is installed. What is
    /// known of shift and of the last hotkey stays.
    pub fn init(&mut self, hwnd: isize, hotkeys: &Vec<Hotkey>)
        ensures
            final(self)@ == listening(old(self)@, hwnd, hotkey_models(hotkeys@)),
    {
        let mut states: Vec<HotKeyState> = Vec::new();
        let mut i: usize = 0;
        while i < hotkeys.len()
            invariant
                i <= hotkeys@.len(),
                states@.len() == i,
                forall|j: int|
                    0 <= j < i ==> (#[trigger] states@[j])@ == (HotKeyModel {
                        hotkey: hotkeys@[j]@,
                        is_modifier_pressed: false,
                    }),
            decreases hotkeys@.len() - i,
        {
            states.push(HotKeyState { hotkey: hotkeys[i].clone(), is_modifier_pressed: false });
            i += 1;
        }
        self.window = hwnd;
        self.hotkeys = states;
        assert(self@.hotkeys =~= listening(old(self)@, hwnd, hotkey_models(hotkeys@)).hotkeys);
    }

    /// Updates the modifiers; returns whether the key is one, and the ids of the
    /// hotkeys that the keystroke ends.
    fn update_modifiers(&mut self, scan_code: u32, pressed: bool) -> (result: (bool, Vec<u32>))
        ensures
            result.0 == is_modifier(old(self)@, scan_code),
            forall|flags: u32| #[trigger]
                presses(flags) == pressed ==> result.1@ == ended(old(self)@, scan_code, flags)
                    && final(self)@ == (KeyboardModel {
                    hotkeys: old(self)@.hotkeys.map_values(
                        |k: HotKeyModel| with_modifier(k, scan_code, flags),
                    ),
                    ..old(self)@
                }),
    {
        let ghost before = self@;
        let ghost ends = |k: HotKeyModel|
            modifies(k, scan_code) && k.hotkey.code == before.previous_keycode;
        let ghost id_of = |k: HotKeyModel| k.hotkey.id;
        let mut found = false;
        let mut done = no_ids();
        let mut i: usize = 0;
        proof {
            reveal(Seq::filter);
            assert(before.hotkeys.take(0).filter(ends).map_values(id_of) =~= Seq::empty());
        }
        while i < self.hotkeys.len()
            invariant
                i <= self.hotkeys@.len(),
                before.hotkeys.len() == self.hotkeys@.len(),
                ends == (|k: HotKeyModel|
                    modifies(k, scan_code) && k.hotkey.code == before.previous_keycode),
                id_of == (|k: HotKeyModel| k.hotkey.id),
                self.window == before.window,
                self.is_shift_pressed == before.is_shift_pressed,
                self.is_switching_apps == before.is_switching_apps,
                self.previous_keycode == before.previous_keycode,
                found == exists|j: int|
                    0 <= j < i && modifies(#[trigger] before.hotkeys[j], scan_code),
                pressed ==> ids(done) == Seq::<u32>::empty(),
                !pressed ==> ids(done) == distinct(
                    before.hotkeys.take(i as int).filter(ends).map_values(id_of),
                ),
                forall|j: int|
                    i <= j < self.hotkeys@.len() ==> (#[trigger] self.hotkeys@[j])@
                        == before.hotkeys[j],
                forall|j: int|
                    0 <= j < i ==> (#[trigger] self.hotkeys@[j])@ == (HotKeyModel {
                        is_modifier_pressed: if modifies(before.hotkeys[j], scan_code) {
                            pressed
                        } else {
                            before.hotkeys[j].is_modifier_pressed
                        },
                        ..before.hotkeys[j]
                    }),
            decreases self.hotkeys@.len() - i,
        {
            let ghost key = before.hotkeys[i as int];
            assert(self.hotkeys@[i as int]@ == key);
            proof {
                lemma_filter_take(before.hotkeys, i as int, ends);
                let so_far = before.hotkeys.take(i as int).filter(ends);
                assert(so_far.push(key).map_values(id_of) =~= so_far.map_values(id_of).push(
                    key.hotkey.id,
                ));
                assert(so_far.map_values(id_of).push(key.hotkey.id).drop_last()
                    =~= so_far.map_values(id_of));
            }
            if has_code(&self.hotkeys[i].hotkey.modifier, scan_code) {
                found = true;
                self.hotkeys[i].is_modifier_pressed = pressed;
                if !pressed && self.previous_keycode == self.hotkeys[i].hotkey.code {
                    insert_id(&mut done, self.hotkeys[i].hotkey.id);
                }
            }
            i += 1;
        }
        proof {
            assert(before.hotkeys.take(i as int) =~= before.hotkeys);
            assert forall|flags: u32| #[trigger]
                presses(flags) == pressed implies self@.hotkeys == before.hotkeys.map_values(
                |k: HotKeyModel| with_modifier(k, scan_code, flags),
            ) by {
                assert(self@.hotkeys =~= before.hotkeys.map_values(
                    |k: HotKeyModel| with_modifier(k, scan_code, flags),
                ));
            }
        }
        (found, list_ids(done))
    }

    /// The first hotkey whose modifier is held down and that the key makes act.
    fn find_ready(&self, scan_code: u32, foreground_in_blacklist: bool) -> (found: Option<usize>)
        ensures
            ({
                let ready = self@.hotkeys.filter(
                    |k: HotKeyModel|
                        k.is_modifier_pressed && acts_on(
                            self@,
                            k,
                            scan_code,
                            foreground_in_blacklist,
                        ),
                );
                match found {
                    Some(i) => i < self.hotkeys@.len() && ready.len() > 0 && ready.first()
                        == self.hotkeys@[i as int]@ && acts_on(
                        self@,
                        self.hotkeys@[i as int]@,
                        scan_code,
                        foreground_in_blacklist,
                    ),
                    None => ready.len() == 0,
                }
            }),
    {
        let ghost keys = self@.hotkeys;
        let ghost is_ready = |k: HotKeyModel|
            k.is_modifier_pressed && acts_on(self@, k, scan_code, foreground_in_blacklist);
        let arrow = scan_code == SCANCODE_UP || scan_code == SCANCODE_LEFT || scan_code
            == SCANCODE_RIGHT || scan_code == SCANCODE_DOWN;
        let mut i: usize = 0;
        while i < self.hotkeys.len()
            invariant
                i <= self.hotkeys@.len(),
                keys == self@.hotkeys,
                arrow == is_arrow(scan_code),
                is_ready == (|k: HotKeyModel|
                    k.is_modifier_pressed && acts_on(self@, k, scan_code, foreground_in_blacklist)),
                forall|j: int| 0 <= j < i ==> !is_ready(#[trigger] keys[j]),
            decreases self.hotkeys@.len() - i,
        {
            let state = &self.hotkeys[i];
            assert(keys[i as int] == state@);
            if state.is_modifier_pressed {
                let id = state.hotkey.id;
                let acts = if scan_code == state.hotkey.code {
                    id == SWITCH_APPS_HOTKEY_ID || (id == SWITCH_WINDOWS_HOTKEY_ID
                        && !foreground_in_blacklist)
                } else {
                    id == SWITCH_APPS_HOTKEY_ID && (scan_code == SCANCODE_ESCAPE || (arrow
                        && self.is_switching_apps))
                };
                if acts {
                    proof {
                        lemma_first_of_filter(keys, i as int, is_ready);
                    }
                    return Some(i);
                }
            }
            i += 1;
        }
        proof {
            lemma_filter_none(keys, is_ready);
        }
        None
    }

    /// Takes in one keystroke: updates the modifiers, and posts the messages that
    /// end hotkeys or make one act. `foreground_in_blacklist` says whether the
    /// foreground app opted out of switching between its windows.
    pub fn keyboard_proc(
        &mut self,
        scan_code: u32,
        flags: u32,
        foreground_in_blacklist: bool,
    ) -> (outcome: KeyOutcome)
        ensures
            outcome.posts@ == posts_of(old(self)@, scan_code, flags, foreground_in_blacklist),
            outcome.consumed == triggered(
                old(self)@,
                scan_code,
                flags,
                foreground_in_blacklist,
            ) is Some,
            final(self)@ == after_keystroke(
                old(self)@,
                scan_code,
                flags,
                foreground_in_blacklist,
            ),
    {
        let ghost before = self@;
        let pressed = flags & LLKHF_UP == 0;
        let (modifier, done) = self.update_modifiers(scan_code, pressed);
        assert(presses(flags) == pressed);
        assert(self.is_switching_apps == before.is_switching_apps);
        if scan_code == SCANCODE_LSHIFT || scan_code == SCANCODE_RSHIFT {
            self.is_shift_pressed = pressed;
        }
        let mut action: Option<Post> = None;
        if !modifier && pressed {
            proof {
                lemma_modifiers_stay(before, scan_code, flags);
                lemma_ready_alike(before, self@, scan_code, foreground_in_blacklist);
            }
            if let Some(i) = self.find_ready(scan_code, foreground_in_blacklist) {
                let id = self.hotkeys[i].hotkey.id;
                let code = self.hotkeys[i].hotkey.code;
                let backwards: isize = if self.is_shift_pressed {
                    1
                } else {
                    0
                };
                let post = if id == SWITCH_WINDOWS_HOTKEY_ID {
                    Post { msg: WM_USER_SWITCH_WINDOWS, lparam: backwards }
                } else if scan_code == code {
                    Post { msg: WM_USER_SWITCH_APPS, lparam: backwards }
                } else if scan_code == SCANCODE_ESCAPE {
                    Post { msg: WM_USER_SWITCH_APPS_CANCEL, lparam: 0 }
                } else if scan_code == SCANCODE_UP || scan_code == SCANCODE_LEFT {
                    Post { msg: WM_USER_SWITCH_APPS, lparam: 1 }
                } else {
                    Post { msg: WM_USER_SWITCH_APPS, lparam: 0 }
                };
                action = Some(post);
                if scan_code == code || scan_code == SCANCODE_ESCAPE {
                    self.previous_keycode = scan_code;
                }
                self.is_switching_apps = post.msg == WM_USER_SWITCH_APPS;
            }
        }
        let mut posts: Vec<Post> = Vec::new();
        let ghost to_post = |id: u32| done_post(id);
        let ghost hotkeys_now = self@.hotkeys;
        let mut i: usize = 0;
        while i < done.len()
            invariant
                i <= done@.len(),
                to_post == (|id: u32| done_post(id)),
                posts@ == done@.take(i as int).filter_map(to_post),
                self.window == before.window,
                self@.hotkeys == hotkeys_now,
                self.is_shift_pressed == shift_after(before, scan_code, flags),
                action is Some ==> done@.len() == 0,
                action is Some ==> self.is_switching_apps == after_keystroke(
                    before,
                    scan_code,
                    flags,
                    foreground_in_blacklist,
                ).is_switching_apps,
                action is None ==> self.is_switching_apps == (before.is_switching_apps
                    && !done@.take(i as int).contains(SWITCH_APPS_HOTKEY_ID)),
                self.previous_keycode == after_keystroke(
                    before,
                    scan_code,
                    flags,
                    foreground_in_blacklist,
                ).previous_keycode,
            decreases done@.len() - i,
        {
            let id = done[i];
            proof {
                let taken = done@.take(i + 1);
                assert(taken.drop_last() =~= done@.take(i as int));
                assert(taken =~= done@.take(i as int).push(id));
                lemma_push_contains(done@.take(i as int), id, SWITCH_APPS_HOTKEY_ID);
            }
            if id == SWITCH_APPS_HOTKEY_ID {
                posts.push(Post { msg: WM_USER_SWITCH_APPS_DONE, lparam: 0 });
                self.is_switching_apps = false;
            } else if id == SWITCH_WINDOWS_HOTKEY_ID {
                posts.push(Post { msg: WM_USER_SWITCH_WINDOWS_DONE, lparam: 0 });
            }
            assert(posts@ =~= done@.take(i + 1).filter_map(to_post));
            i += 1;
        }
        assert(done@.take(i as int) =~= done@);
        match action {
            Some(post) => {
                posts.push(post);
                KeyOutcome { posts, consumed: true }
            },
            None => KeyOutcome { posts, consumed: false },
        }
    }
}

proof fn lemma_modifiers_stay(keyboard: KeyboardModel, scan_code: u32, flags: u32)
    requires
        !is_modifier(keyboard, scan_code),
    ensures
        keyboard.hotkeys.map_values(|k: HotKeyModel| with_modifier(k, scan_code, flags))
            == keyboard.hotkeys,
{
    assert(keyboard.hotkeys.map_values(|k: HotKeyModel| with_modifier(k, scan_code, flags))
        =~= keyboard.hotkeys);
}

proof fn lemma_ready_alike(
    a: KeyboardModel,
    b: KeyboardModel,
    scan_code: u32,
    foreground_in_blacklist: bool,
)
    requires
        a.hotkeys == b.hotkeys,
        a.is_switching_apps == b.is_switching_apps,
    ensures
        a.hotkeys.filter(
            |k: HotKeyModel|
                k.is_modifier_pressed && acts_on(a, k, scan_code, foreground_in_blacklist),
        ) == b.hotkeys.filter(
            |k: HotKeyModel|
                k.is_modifier_pressed && acts_on(b, k, scan_code, foreground_in_blacklist),
        ),
{
    lemma_filter_congruence(
        a.hotkeys,
        |k: HotKeyModel|
            k.is_modifier_pressed && acts_on(a, k, scan_code, foreground_in_blacklist),
        |k: HotKeyModel|
            k.is_modifier_pressed && acts_on(b, k, scan_code, foreground_in_blacklist),
    );
}

/// A keystroke that is swallowed posts exactly one message, the one that makes its
/// hotkey act.
pub proof fn swallowed_keystroke_posts_one_message(
    keyboard: KeyboardModel,
    scan_code: u32,
    flags: u32,
    foreground_in_blacklist: bool,
)
    requires
        triggered(keyboard, scan_code, flags, foreground_in_blacklist) is Some,
    ensures
        posts_of(keyboard, scan_code, flags, foreground_in_blacklist) == seq![
            action_post(
                triggered(keyboard, scan_code, flags, foreground_in_blacklist)->0,
                scan_code,
                shift_after(keyboard, scan_code, flags),
            ),
        ],
{
    assert(done_posts(Seq::<u32>::empty()) =~= Seq::<Post>::empty());
    assert(posts_of(keyboard, scan_code, flags, foreground_in_blacklist) =~= seq![
        action_post(
            triggered(keyboard, scan_code, flags, foreground_in_blacklist)->0,
            scan_code,
            shift_after(keyboard, scan_code, flags),
        ),
    ]);
}

proof fn lemma_triggered_acts(
    keyboard: KeyboardModel,
    scan_code: u32,
    flags: u32,
    foreground_in_blacklist: bool,
) -> (i: int)
    requires
        triggered(keyboard, scan_code, flags, foreground_in_blacklist) is Some,
    ensures
        0 <= i < keyboard.hotkeys.len(),
        keyboard.hotkeys[i].hotkey == triggered(
            keyboard,
            scan_code,
            flags,
            foreground_in_blacklist,
        )->0,
        keyboard.hotkeys[i].is_modifier_pressed,
        acts_on(keyboard, keyboard.hotkeys[i], scan_code, foreground_in_blacklist),
{
    let is_ready = |k: HotKeyModel|
        k.is_modifier_pressed && acts_on(keyboard, k, scan_code, foreground_in_blacklist);
    let ready = keyboard.hotkeys.filter(is_ready);
    assert(ready.contains(ready[0]));
    lemma_filter_contains(keyboard.hotkeys, is_ready, ready[0]);
    choose|i: int| 0 <= i < keyboard.hotkeys.len() && keyboard.hotkeys[i] == ready[0]
}

proof fn lemma_done_posts(ended: Seq<u32>, post: Post)
    ensures
        done_posts(ended).contains(post) <==> exists|i: int|
            0 <= i < ended.len() && done_post(#[trigger] ended[i]) == Some(post),
    decreases ended.len(),
{
    if ended.len() > 0 {
        let rest = ended.drop_last();
        lemma_done_posts(rest, post);
        match done_post(ended.last()) {
            Some(last) => {
                assert(done_posts(ended) =~= done_posts(rest).push(last));
                lemma_push_contains(done_posts(rest), last, post);
            },
            None => {
                assert(done_posts(ended) =~= done_posts(rest));
            },
        }
        if exists|i: int| 0 <= i < ended.len() && done_post(#[trigger] ended[i]) == Some(post) {
            let i = choose|i: int|
                0 <= i < ended.len() && done_post(#[trigger] ended[i]) == Some(post);
            if i < rest.len() {
                assert(done_post(rest[i]) == Some(post));
            }
        }
        if done_posts(ended).contains(post) {
            if done_posts(rest).contains(post) {
                let i = choose|i: int|
                    0 <= i < rest.len() && done_post(#[trigger] rest[i]) == Some(post);
                assert(done_post(ended[i]) == Some(post));
            } else {
                assert(done_post(ended[ended.len() - 1]) == Some(post));
            }
        }
    }
}

/// A keystroke that releases a key, or that is of a modifier key, is never swallowed.
pub proof fn releases_and_modifiers_pass(
    keyboard: KeyboardModel,
    scan_code: u32,
    flags: u32,
    foreground_in_blacklist: bool,
)
    requires
        !presses(flags) || is_modifier(keyboard, scan_code),
    ensures
        triggered(keyboard, scan_code, flags, foreground_in_blacklist) is None,
{
}

/// While the foreground app is in the blacklist, no keystroke asks to switch
/// between its windows.
pub proof fn blacklisted_app_keeps_its_keys(
    keyboard: KeyboardModel,
    scan_code: u32,
    flags: u32,
    post: Post,
)
    requires
        posts_of(keyboard, scan_code, flags, true).contains(post),
    ensures
        post.msg != WM_USER_SWITCH_WINDOWS,
{
    let over = ended(keyboard, scan_code, flags);
    lemma_done_posts(over, post);
    if triggered(keyboard, scan_code, flags, true) is Some {
        let i = lemma_triggered_acts(keyboard, scan_code, flags, true);
        lemma_push_contains(
            done_posts(over),
            action_post(
                triggered(keyboard, scan_code, flags, true)->0,
                scan_code,
                shift_after(keyboard, scan_code, flags),
            ),
            post,
        );
    }
}

/// Arrow keys that are no hotkeys of their own do nothing unless the apps are
/// being switched.
pub proof fn arrows_act_only_while_switching(
    keyboard: KeyboardModel,
    scan_code: u32,
    flags: u32,
    foreground_in_blacklist: bool,
)
    requires
        is_arrow(scan_code),
        !keyboard.is_switching_apps,
        forall|i: int|
            0 <= i < keyboard.hotkeys.len() ==> (#[trigger] keyboard.hotkeys[i]).hotkey.code
                != scan_code,
    ensures
        triggered(keyboard, scan_code, flags, foreground_in_blacklist) is None,
{
    if triggered(keyboard, scan_code, flags, foreground_in_blacklist) is Some {
        let i = lemma_triggered_acts(keyboard, scan_code, flags, foreground_in_blacklist);
        assert(keyboard.hotkeys[i].hotkey.code != scan_code);
    }
}

/// No keystroke changes which hotkeys are listened for, or who is told of them.
pub proof fn keystrokes_keep_hotkeys(
    keyboard: KeyboardModel,
    scan_code: u32,
    flags: u32,
    foreground_in_blacklist: bool,
    i: int,
)
    requires
        0 <= i < keyboard.hotkeys.len(),
    ensures
        ({
            let after = after_keystroke(keyboard, scan_code, flags, foreground_in_blacklist);
            &&& after.window == keyboard.window
            &&& after.hotkeys.len() == keyboard.hotkeys.len()
            &&& after.hotkeys[i].hotkey == keyboard.hotkeys[i].hotkey
        }),
{
}

/// The hotkey that ended is among those reported.
proof fn lemma_ended_contains(keyboard: KeyboardModel, scan_code: u32, flags: u32, i: int)
    requires
        !presses(flags),
        0 <= i < keyboard.hotkeys.len(),
        modifies(keyboard.hotkeys[i], scan_code),
        keyboard.hotkeys[i].hotkey.code == keyboard.previous_keycode,
    ensures
        ended(keyboard, scan_code, flags).contains(keyboard.hotkeys[i].hotkey.id),
{
    let ends = |k: HotKeyModel|
        modifies(k, scan_code) && k.hotkey.code == keyboard.previous_keycode;
    let id_of = |k: HotKeyModel| k.hotkey.id;
    let matching = keyboard.hotkeys.filter(ends);
    assert(keyboard.hotkeys.contains(keyboard.hotkeys[i]));
    lemma_filter_contains(keyboard.hotkeys, ends, keyboard.hotkeys[i]);
    let j = choose|j: int| 0 <= j < matching.len() && matching[j] == keyboard.hotkeys[i];
    assert(matching.map_values(id_of)[j] == keyboard.hotkeys[i].hotkey.id);
    lemma_distinct(matching.map_values(id_of), keyboard.hotkeys[i].hotkey.id);
}

/// Only a hotkey that ended is reported.
proof fn lemma_ended_only(keyboard: KeyboardModel, scan_code: u32, flags: u32, id: u32) -> (i: int)
    requires
        ended(keyboard, scan_code, flags).contains(id),
    ensures
        0 <= i < keyboard.hotkeys.len(),
        modifies(keyboard.hotkeys[i], scan_code),
        keyboard.hotkeys[i].hotkey.code == keyboard.previous_keycode,
        keyboard.hotkeys[i].hotkey.id == id,
{
    let ends = |k: HotKeyModel|
        modifies(k, scan_code) && k.hotkey.code == keyboard.previous_keycode;
    let id_of = |k: HotKeyModel| k.hotkey.id;
    let matching = keyboard.hotkeys.filter(ends);
    lemma_distinct(matching.map_values(id_of), id);
    let j = choose|j: int|
        0 <= j < matching.map_values(id_of).len() && matching.map_values(id_of)[j] == id;
    assert(matching.contains(matching[j]));
    lemma_filter_contains(keyboard.hotkeys, ends, matching[j]);
    choose|i: int| 0 <= i < keyboard.hotkeys.len() && keyboard.hotkeys[i] == matching[j]
}

/// Once the key of a hotkey has made it act, releasing any key of the hotkey's
/// modifier tells that it is over.
pub proof fn releasing_the_modifier_ends_the_hotkey(
    keyboard: KeyboardModel,
    press_flags: u32,
    release_flags: u32,
    modifier: u32,
    press_in_blacklist: bool,
    release_in_blacklist: bool,
    hotkey: HotkeyModel,
)
    requires
        triggered(keyboard, hotkey.code, press_flags, press_in_blacklist) == Some(hotkey),
        hotkey.modifier.contains(modifier),
        !presses(release_flags),
    ensures
        ({
            let held = after_keystroke(keyboard, hotkey.code, press_flags, press_in_blacklist);
            let posts = posts_of(held, modifier, release_flags, release_in_blacklist);
            let over = after_keystroke(held, modifier, release_flags, release_in_blacklist);
            &&& done_post(hotkey.id) matches Some(post) && posts.contains(post)
            &&& hotkey.id == SWITCH_APPS_HOTKEY_ID ==> !over.is_switching_apps
        }),
{
    let held = after_keystroke(keyboard, hotkey.code, press_flags, press_in_blacklist);
    let i = lemma_triggered_acts(keyboard, hotkey.code, press_flags, press_in_blacklist);
    assert(held.hotkeys[i].hotkey == hotkey);
    lemma_ended_contains(held, modifier, release_flags, i);
    let over = ended(held, modifier, release_flags);
    let j = choose|j: int| 0 <= j < over.len() && over[j] == hotkey.id;
    assert(done_post(over[j]) is Some);
    lemma_done_posts(over, done_post(hotkey.id)->0);
}

/// Once escape has cancelled the switch between apps, releasing a modifier does
/// not commit it.
pub proof fn cancelled_switch_is_not_committed(
    keyboard: KeyboardModel,
    press_flags: u32,
    release_flags: u32,
    modifier: u32,
    press_in_blacklist: bool,
    release_in_blacklist: bool,
)
    requires
        triggered(keyboard, SCANCODE_ESCAPE, press_flags, press_in_blacklist) is Some,
        forall|i: int|
            0 <= i < keyboard.hotkeys.len() ==> (#[trigger] keyboard.hotkeys[i]).hotkey.code
                != SCANCODE_ESCAPE,
        !presses(release_flags),
    ensures
        ({
            let cancelled = after_keystroke(
                keyboard,
                SCANCODE_ESCAPE,
                press_flags,
                press_in_blacklist,
            );
            &&& posts_of(keyboard, SCANCODE_ESCAPE, press_flags, press_in_blacklist) == seq![
                Post { msg: WM_USER_SWITCH_APPS_CANCEL, lparam: 0 },
            ]
            &&& !cancelled.is_switching_apps
            &&& posts_of(cancelled, modifier, release_flags, release_in_blacklist) == Seq::<
                Post,
            >::empty()
        }),
{
    let cancelled = after_keystroke(keyboard, SCANCODE_ESCAPE, press_flags, press_in_blacklist);
    let i = lemma_triggered_acts(keyboard, SCANCODE_ESCAPE, press_flags, press_in_blacklist);
    assert(keyboard.hotkeys[i].hotkey.code != SCANCODE_ESCAPE);
    swallowed_keystroke_posts_one_message(
        keyboard,
        SCANCODE_ESCAPE,
        press_flags,
        press_in_blacklist,
    );
    let over = ended(cancelled, modifier, release_flags);
    if over.len() > 0 {
        assert(over.contains(over[0]));
        let j = lemma_ended_only(cancelled, modifier, release_flags, over[0]);
        assert(cancelled.hotkeys[j].hotkey == keyboard.hotkeys[j].hotkey);
        assert(keyboard.hotkeys[j].hotkey.code != SCANCODE_ESCAPE);
    }
    assert(over =~= Seq::empty());
    assert(done_posts(over) =~= Seq::<Post>::empty());
}

/// The key goes past the hotkey: the hotkey's modifier is up, or it is no hotkey of the
/// switcher, or the key means nothing to it. To the hotkey for windows (1) only its own
/// key means something, unless the foreground app is blacklisted; to the one for apps (2)
/// also escape, and the arrows while apps are being switched.
pub open spec fn goes_past(
    key: HotKeyModel,
    scan_code: u32,
    switching: bool,
    blacklisted: bool,
) -> bool {
    ||| !key.is_modifier_pressed
    ||| key.hotkey.id != 1 && key.hotkey.id != 2
    ||| key.hotkey.id == 1 && (key.hotkey.code != scan_code || blacklisted)
    ||| {
        &&& key.hotkey.id == 2
        &&& key.hotkey.code != scan_code
        &&& scan_code != 0x01
        &&& !switching || (scan_code != 0x48 && scan_code != 0x4b && scan_code != 0x4d && scan_code
            != 0x50)
    }
}

/// The keystroke presses a key that is nobody's modifier, and reaches the hotkey at `i`:
/// it goes past those before it, and the modifier of this one is held.
pub open spec fn reaches(
    keyboard: KeyboardModel,
    scan_code: u32,
    flags: u32,
    blacklisted: bool,
    i: int,
) -> bool {
    &&& flags & 0x80 == 0
    &&& 0 <= i < keyboard.hotkeys.len()
    &&& keyboard.hotkeys[i].is_modifier_pressed
    &&& forall|j: int|
        0 <= j < keyboard.hotkeys.len() ==> !(
        #[trigger] keyboard.hotkeys[j]).hotkey.modifier.contains(scan_code)
    &&& forall|j: int|
        0 <= j < i ==> goes_past(
            #[trigger] keyboard.hotkeys[j],
            scan_code,
            keyboard.is_switching_apps,
            blacklisted,
        )
}

/// What follows from a keystroke: the one message it posts, that it is swallowed, and
/// what is remembered of it.
pub open spec fn acts_with(
    keyboard: KeyboardModel,
    scan_code: u32,
    flags: u32,
    blacklisted: bool,
    msg: u32,
    lparam: isize,
    switching: bool,
    previous: u32,
) -> bool {
    &&& posts_of(keyboard, scan_code, flags, blacklisted) == seq![Post { msg, lparam }]
    &&& triggered(keyboard, scan_code, flags, blacklisted) is Some
    &&& after_keystroke(keyboard, scan_code, flags, blacklisted).is_switching_apps == switching
    &&& after_keystroke(keyboard, scan_code, flags, blacklisted).previous_keycode == previous
}

proof fn lemma_reached_hotkey_acts(
    keyboard: KeyboardModel,
    scan_code: u32,
    flags: u32,
    blacklisted: bool,
    i: int,
)
    requires
        reaches(keyboard, scan_code, flags, blacklisted, i),
        !goes_past(keyboard.hotkeys[i], scan_code, keyboard.is_switching_apps, blacklisted),
    ensures
        triggered(keyboard, scan_code, flags, blacklisted) == Some(keyboard.hotkeys[i].hotkey),
{
    let is_ready = |k: HotKeyModel|
        k.is_modifier_pressed && acts_on(keyboard, k, scan_code, blacklisted);
    assert forall|j: int| 0 <= j < i implies !is_ready(#[trigger] keyboard.hotkeys[j]) by {
        assert(goes_past(
            keyboard.hotkeys[j],
            scan_code,
            keyboard.is_switching_apps,
            blacklisted,
        ));
    }
    assert(is_ready(keyboard.hotkeys[i]));
    lemma_first_of_filter(keyboard.hotkeys, i, is_ready);
}

/// The key of the hotkey for apps, pressed while its modifier is held, always asks for
/// a step between apps, backwards if shift is down. It does so also while apps are being
/// switched, so that one press after another moves on.
pub proof fn apps_key_always_moves_on(
    keyboard: KeyboardModel,
    scan_code: u32,
    flags: u32,
    blacklisted: bool,
    i: int,
)
    requires
        reaches(keyboard, scan_code, flags, blacklisted, i),
        keyboard.hotkeys[i].hotkey.id == 2,
        keyboard.hotkeys[i].hotkey.code == scan_code,
    ensures
        acts_with(
            keyboard,
            scan_code,
            flags,
            blacklisted,
            6010,
            if keyboard.is_shift_pressed || scan_code == 42 || scan_code == 54 {
                1
            } else {
                0
            },
            true,
            scan_code,
        ),
{
    lemma_reached_hotkey_acts(keyboard, scan_code, flags, blacklisted, i);
    swallowed_keystroke_posts_one_message(keyboard, scan_code, flags, blacklisted);
}

/// The key of the hotkey for windows, pressed while its modifier is held, asks for a
/// step between windows, backwards if shift is down, and ends a switch between apps.
pub proof fn windows_key_always_moves_on(
    keyboard: KeyboardModel,
    scan_code: u32,
    flags: u32,
    i: int,
)
    requires
        reaches(keyboard, scan_code, flags, false, i),
        keyboard.hotkeys[i].hotkey.id == 1,
        keyboard.hotkeys[i].hotkey.code == scan_code,
    ensures
        acts_with(
            keyboard,
            scan_code,
            flags,
            false,
            6020,
            if keyboard.is_shift_pressed || scan_code == 42 || scan_code == 54 {
                1
            } else {
                0
            },
            false,
            scan_code,
        ),
{
    lemma_reached_hotkey_acts(keyboard, scan_code, flags, false, i);
    swallowed_keystroke_posts_one_message(keyboard, scan_code, flags, false);
}

/// Escape, pressed while the modifier of the hotkey for apps is held, asks to cancel.
pub proof fn escape_always_cancels(
    keyboard: KeyboardModel,
    flags: u32,
    blacklisted: bool,
    i: int,
)
    requires
        reaches(keyboard, 0x01, flags, blacklisted, i),
        keyboard.hotkeys[i].hotkey.id == 2,
        keyboard.hotkeys[i].hotkey.code != 0x01,
    ensures
        acts_with(keyboard, 0x01, flags, blacklisted, 6012, 0, false, 0x01),
{
    lemma_reached_hotkey_acts(keyboard, 0x01, flags, blacklisted, i);
    swallowed_keystroke_posts_one_message(keyboard, 0x01, flags, blacklisted);
}

/// While apps are being switched, the arrows move the selection: up and left backwards,
/// right and down forwards, whether or not shift is down. The hotkey that acted last
/// stays the one that the release of the modifier ends.
pub proof fn arrows_always_move_while_switching(
    keyboard: KeyboardModel,
    scan_code: u32,
    flags: u32,
    blacklisted: bool,
    i: int,
)
    requires
        reaches(keyboard, scan_code, flags, blacklisted, i),
        keyboard.is_switching_apps,
        keyboard.hotkeys[i].hotkey.id == 2,
        keyboard.hotkeys[i].hotkey.code != scan_code,
        scan_code == 0x48 || scan_code == 0x4b || scan_code == 0x4d || scan_code == 0x50,
    ensures
        acts_with(
            keyboard,
            scan_code,
            flags,
            blacklisted,
            6010,
            if scan_code == 0x48 || scan_code == 0x4b {
                1
            } else {
                0
            },
            true,
            keyboard.previous_keycode,
        ),
{
    lemma_reached_hotkey_acts(keyboard, scan_code, flags, blacklisted, i);
    swallowed_keystroke_posts_one_message(keyboard, scan_code, flags, blacklisted);
}

/// A press that goes past every hotkey, or that is of a modifier key, posts nothing, is
/// not swallowed, and leaves what is remembered of the last hotkey.
pub proof fn other_presses_do_nothing(
    keyboard: KeyboardModel,
    scan_code: u32,
    flags: u32,
    blacklisted: bool,
)
    requires
        flags & 0x80 == 0,
        (exists|j: int|
            0 <= j < keyboard.hotkeys.len() && (
            #[trigger] keyboard.hotkeys[j]).hotkey.modifier.contains(scan_code)) || (forall|j: int|
            0 <= j < keyboard.hotkeys.len() ==> goes_past(
                #[trigger] keyboard.hotkeys[j],
                scan_code,
                keyboard.is_switching_apps,
                blacklisted,
            )),
    ensures
        posts_of(keyboard, scan_code, flags, blacklisted) == Seq::<Post>::empty(),
        triggered(keyboard, scan_code, flags, blacklisted) is None,
        after_keystroke(keyboard, scan_code, flags, blacklisted).is_switching_apps
            == keyboard.is_switching_apps,
        after_keystroke(keyboard, scan_code, flags, blacklisted).previous_keycode
            == keyboard.previous_keycode,
{
    assert(done_posts(Seq::<u32>::empty()) =~= Seq::<Post>::empty());
    if exists|j: int|
        0 <= j < keyboard.hotkeys.len() && (
        #[trigger] keyboard.hotkeys[j]).hotkey.modifier.contains(scan_code) {
        let j = choose|j: int|
            0 <= j < keyboard.hotkeys.len() && (
            #[trigger] keyboard.hotkeys[j]).hotkey.modifier.contains(scan_code);
        assert(modifies(keyboard.hotkeys[j], scan_code));
    } else {
        let is_ready = |k: HotKeyModel|
            k.is_modifier_pressed && acts_on(keyboard, k, scan_code, blacklisted);
        assert forall|j: int| 0 <= j < keyboard.hotkeys.len() implies !is_ready(
            #[trigger] keyboard.hotkeys[j],
        ) by {
            assert(goes_past(
                keyboard.hotkeys[j],
                scan_code,
                keyboard.is_switching_apps,
                blacklisted,
            ));
        }
        lemma_filter_none(keyboard.hotkeys, is_ready);
    }
}

/// A keystroke presses or releases the modifier of exactly the hotkeys that have its key
/// as a modifier key, and shift if it is of a shift key. Nothing else about the keys
/// changes.
pub proof fn keystroke_moves_its_own_modifier(
    keyboard: KeyboardModel,
    scan_code: u32,
    flags: u32,
    blacklisted: bool,
    i: int,
)
    requires
        0 <= i < keyboard.hotkeys.len(),
    ensures
        ({
            let before = keyboard.hotkeys[i];
            let after = after_keystroke(keyboard, scan_code, flags, blacklisted);
            &&& after.window == keyboard.window
            &&& after.hotkeys.len() == keyboard.hotkeys.len()
            &&& after.hotkeys[i].hotkey == before.hotkey
            &&& before.hotkey.modifier.contains(scan_code)
                ==> after.hotkeys[i].is_modifier_pressed == (flags & 0x80 == 0)
            &&& !before.hotkey.modifier.contains(scan_code)
                ==> after.hotkeys[i].is_modifier_pressed == before.is_modifier_pressed
            &&& scan_code == 42 || scan_code == 54 ==> after.is_shift_pressed == (flags & 0x80
                == 0)
            &&& scan_code != 42 && scan_code != 54 ==> after.is_shift_pressed
                == keyboard.is_shift_pressed
        }),
{
}

/// The release of the key ends the hotkey: the key is one of its modifier keys, and its
/// own key was the last to act.
pub open spec fn is_over(keyboard: KeyboardModel, scan_code: u32, i: int) -> bool {
    &&& 0 <= i < keyboard.hotkeys.len()
    &&& keyboard.hotkeys[i].hotkey.modifier.contains(scan_code)
    &&& keyboard.hotkeys[i].hotkey.code == keyboard.previous_keycode
}

proof fn lemma_done_posts_by_position(over: Seq<u32>)
    ensures
        ({
            let told = over.filter(|id: u32| id == 1 || id == 2);
            &&& done_posts(over).len() == told.len()
            &&& forall|k: int|
                0 <= k < told.len() ==> #[trigger] done_posts(over)[k] == (Post {
                    msg: if told[k] == 2 {
                        6011
                    } else {
                        6021
                    },
                    lparam: 0,
                })
        }),
    decreases over.len(),
{
    reveal(Seq::filter);
    let told = over.filter(|id: u32| id == 1 || id == 2);
    if over.len() > 0 {
        let rest = over.drop_last();
        lemma_done_posts_by_position(rest);
        match done_post(over.last()) {
            Some(last) => {
                assert(done_posts(over) =~= done_posts(rest).push(last));
            },
            None => {
                assert(done_posts(over) =~= done_posts(rest));
            },
        }
    } else {
        assert(done_posts(over) =~= Seq::<Post>::empty());
    }
}

proof fn lemma_first_of_distinct(s: Seq<u32>, pred: spec_fn(u32) -> bool, t: int)
    requires
        0 <= t < s.len(),
        pred(s[t]),
        forall|u: int| 0 <= u < t ==> !pred(#[trigger] s[u]),
    ensures
        distinct(s).filter(pred).len() > 0,
        distinct(s).filter(pred)[0] == s[t],
    decreases s.len(),
{
    reveal(Seq::filter);
    let rest = s.drop_last();
    let last = s.last();
    if t < rest.len() {
        assert forall|u: int| 0 <= u < t implies !pred(#[trigger] rest[u]) by {
            assert(rest[u] == s[u]);
        }
        lemma_first_of_distinct(rest, pred, t);
        assert(distinct(rest).push(last).drop_last() =~= distinct(rest));
    } else {
        let shown = distinct(rest);
        assert forall|u: int| 0 <= u < shown.len() implies !pred(#[trigger] shown[u]) by {
            assert(shown.contains(shown[u]));
            lemma_distinct(rest, shown[u]);
            let v = choose|v: int| 0 <= v < rest.len() && rest[v] == shown[u];
            assert(s[v] == rest[v]);
        }
        lemma_filter_none(shown, pred);
        assert(shown.push(last).drop_last() =~= shown);
    }
}

/// Releasing a key tells, each once, of the hotkeys for apps (6011) and for windows
/// (6021) that are over by it, and of nothing else; the hotkey listed first is told of
/// first. A release is not swallowed.
pub proof fn release_tells_what_is_over(
    keyboard: KeyboardModel,
    scan_code: u32,
    flags: u32,
    blacklisted: bool,
    post: Post,
)
    requires
        flags & 0x80 != 0,
    ensures
        ({
            let posts = posts_of(keyboard, scan_code, flags, blacklisted);
            let after = after_keystroke(keyboard, scan_code, flags, blacklisted);
            let apps = exists|i: int|
                is_over(keyboard, scan_code, i) && (#[trigger] keyboard.hotkeys[i]).hotkey.id == 2;
            let windows = exists|i: int|
                is_over(keyboard, scan_code, i) && (#[trigger] keyboard.hotkeys[i]).hotkey.id == 1;
            &&& posts.no_duplicates()
            &&& posts.contains(post) <==> (post == (Post { msg: 6011, lparam: 0 }) && apps) || (post
                == (Post { msg: 6021, lparam: 0 }) && windows)
            &&& triggered(keyboard, scan_code, flags, blacklisted) is None
            &&& after.is_switching_apps == (keyboard.is_switching_apps && !apps)
            &&& after.previous_keycode == keyboard.previous_keycode
        }),
{
    let over = ended(keyboard, scan_code, flags);
    let ends = |k: HotKeyModel|
        modifies(k, scan_code) && k.hotkey.code == keyboard.previous_keycode;
    let id_of = |k: HotKeyModel| k.hotkey.id;
    lemma_distinct(keyboard.hotkeys.filter(ends).map_values(id_of), 0);
    lemma_done_posts(over, post);
    lemma_release_posts_once(over);
    assert forall|id: u32| #[trigger] over.contains(id) <==> exists|i: int|
        is_over(keyboard, scan_code, i) && (#[trigger] keyboard.hotkeys[i]).hotkey.id == id by {
        if over.contains(id) {
            let i = lemma_ended_only(keyboard, scan_code, flags, id);
            assert(is_over(keyboard, scan_code, i) && keyboard.hotkeys[i].hotkey.id == id);
        }
        if exists|i: int|
            is_over(keyboard, scan_code, i) && (#[trigger] keyboard.hotkeys[i]).hotkey.id == id {
            let i = choose|i: int|
                is_over(keyboard, scan_code, i) && (#[trigger] keyboard.hotkeys[i]).hotkey.id == id;
            assert(modifies(keyboard.hotkeys[i], scan_code));
            lemma_ended_contains(keyboard, scan_code, flags, i);
        }
    }
    assert(over.contains(2) || !over.contains(2));
    assert(over.contains(1) || !over.contains(1));
    if over.contains(2) {
        let k = choose|k: int| 0 <= k < over.len() && over[k] == 2;
        assert(done_post(over[k]) == Some(Post { msg: 6011, lparam: 0 }));
    }
    if over.contains(1) {
        let k = choose|k: int| 0 <= k < over.len() && over[k] == 1;
        assert(done_post(over[k]) == Some(Post { msg: 6021, lparam: 0 }));
    }
    if posts_of(keyboard, scan_code, flags, blacklisted).contains(post) {
        let k = choose|k: int| 0 <= k < over.len() && done_post(#[trigger] over[k]) == Some(post);
        assert(over.contains(over[k]));
    }
}

proof fn lemma_release_posts_once(over: Seq<u32>)
    requires
        over.no_duplicates(),
    ensures
        done_posts(over).no_duplicates(),
{
    let told = over.filter(|id: u32| id == 1 || id == 2);
    lemma_done_posts_by_position(over);
    lemma_filter_no_duplicates(over, |id: u32| id == 1 || id == 2);
    assert forall|k: int| 0 <= k < told.len() implies told[k] == 1 || told[k] == 2 by {
        assert(told.contains(told[k]));
        lemma_filter_contains(over, |id: u32| id == 1 || id == 2, told[k]);
    }
    let posts = done_posts(over);
    assert forall|k: int, l: int| 0 <= k < posts.len() && 0 <= l < posts.len() && k != l implies
        posts[k] != posts[l] by {
        assert(told[k] != told[l]);
    }
}

/// The first hotkey, for apps or for windows, that a release ends is told of first.
pub proof fn release_tells_in_order(
    keyboard: KeyboardModel,
    scan_code: u32,
    flags: u32,
    blacklisted: bool,
    i: int,
)
    requires
        flags & 0x80 != 0,
        is_over(keyboard, scan_code, i),
        keyboard.hotkeys[i].hotkey.id == 1 || keyboard.hotkeys[i].hotkey.id == 2,
        forall|j: int|
            0 <= j < i && is_over(keyboard, scan_code, j) ==> (
            #[trigger] keyboard.hotkeys[j]).hotkey.id != 1 && keyboard.hotkeys[j].hotkey.id != 2,
    ensures
        ({
            let posts = posts_of(keyboard, scan_code, flags, blacklisted);
            &&& posts.len() > 0
            &&& posts[0] == (Post {
                msg: if keyboard.hotkeys[i].hotkey.id == 2 {
                    6011
                } else {
                    6021
                },
                lparam: 0,
            })
        }),
{
    let ends = |k: HotKeyModel|
        modifies(k, scan_code) && k.hotkey.code == keyboard.previous_keycode;
    let id_of = |k: HotKeyModel| k.hotkey.id;
    let told = |id: u32| id == 1 || id == 2;
    let at = lemma_filter_positions(keyboard.hotkeys, ends);
    let found = keyboard.hotkeys.filter(ends);
    let ids = found.map_values(id_of);
    assert(ends(keyboard.hotkeys[i]));
    let t = choose|t: int| 0 <= t < at.len() && at[t] == i;
    assert(ids[t] == keyboard.hotkeys[i].hotkey.id);
    assert forall|u: int| 0 <= u < t implies !told(#[trigger] ids[u]) by {
        assert(at[u] < at[t]);
        assert(ends(keyboard.hotkeys[at[u]]));
        assert(is_over(keyboard, scan_code, at[u]));
        assert(keyboard.hotkeys[at[u]].hotkey.id != 1);
    }
    lemma_first_of_distinct(ids, told, t);
    lemma_done_posts_by_position(distinct(ids));
}

/// A hook listens for exactly the hotkeys it is given, in order, with all modifiers up,
/// and tells its own window of them. Shift and the last hotkey are still known.
pub proof fn listening_starts_with_modifiers_up(
    keyboard: KeyboardModel,
    window: isize,
    hotkeys: Seq<HotkeyModel>,
    i: int,
)
    ensures
        ({
            let after = listening(keyboard, window, hotkeys);
            &&& after.window == window
            &&& after.hotkeys.len() == hotkeys.len()
            &&& 0 <= i < hotkeys.len() ==> after.hotkeys[i].hotkey == hotkeys[i]
                && !after.hotkeys[i].is_modifier_pressed
            &&& after.is_shift_pressed == keyboard.is_shift_pressed
            &&& after.is_switching_apps == keyboard.is_switching_apps
            &&& after.previous_keycode == keyboard.previous_keycode
        }),
{
}

/// The keyboard is modelled field by field, its hotkeys one by one and in order.
pub proof fn keyboard_is_modelled_field_by_field(keyboard: KeyboardListener, i: int)
    ensures
        keyboard@.window == keyboard.window,
        keyboard@.is_shift_pressed == keyboard.is_shift_pressed,
        keyboard@.is_switching_apps == keyboard.is_switching_apps,
        keyboard@.previous_keycode == keyboard.previous_keycode,
        keyboard@.hotkeys.len() == keyboard.hotkeys@.len(),
        0 <= i < keyboard.hotkeys@.len() ==> keyboard@.hotkeys[i].hotkey
            == keyboard.hotkeys@[i].hotkey@ && keyboard@.hotkeys[i].is_modifier_pressed
            == keyboard.hotkeys@[i].is_modifier_pressed,
{
}

} // verus!
