//! The messages that reach the switcher's window, and what each asks for.
use vstd::prelude::*;

verus! {

/// Posted by the tray icon.
pub const WM_USER_TRAYICON: u32 = 6000;

/// Asks for another attempt at registering the tray icon.
pub const WM_USER_REGISTER_TRAYICON: u32 = 6001;

pub const WM_USER_SWITCH_APPS: u32 = 6010;

pub const WM_USER_SWITCH_APPS_DONE: u32 = 6011;

pub const WM_USER_SWITCH_APPS_CANCEL: u32 = 6012;

pub const WM_USER_SWITCH_WINDOWS: u32 = 6020;

pub const WM_USER_SWITCH_WINDOWS_DONE: u32 = 6021;

/// Menu item that ends the program.
pub const IDM_EXIT: u32 = 1;

/// Menu item that toggles running at startup.
pub const IDM_STARTUP: u32 = 2;

/// Menu item that opens the configuration.
pub const IDM_CONFIGURE: u32 = 3;

pub const WM_POWERBROADCAST: u32 = 0x0218;

/// The machine woke up on its own.
pub const PBT_APMRESUMEAUTOMATIC: u32 = 0x0012;

/// The user woke the machine up.
pub const PBT_APMRESUMESUSPEND: u32 = 0x0007;

pub const WM_ERASEBKGND: u32 = 0x0014;

pub const WM_GETOBJECT: u32 = 0x003D;

pub const WM_NCHITTEST: u32 = 0x0084;

pub const WM_COMMAND: u32 = 0x0111;

pub const WM_LBUTTONUP: u32 = 0x0202;

pub const WM_RBUTTONUP: u32 = 0x0205;

/// Answer to a hit test: the point is in the client area.
pub const HTCLIENT: isize = 1;

/// Object id with which UI Automation asks for the root of the provider tree.
pub const UIA_ROOT_OBJECT_ID: i32 = -25;

/// What a message to the window asks for.
#[derive(Clone, Copy, Debug, PartialEq, Eq, Structural)]
pub enum Message {
    /// Something happened on the tray icon; `clicked` says whether a mouse button
    /// was released on it.
    TrayIcon { clicked: bool },
    /// Open the session between apps, or move on in it.
    SwitchApps { reverse: bool },
    /// The session between apps is to be committed.
    SwitchAppsDone,
    /// The session between apps is to be cancelled.
    SwitchAppsCancel,
    /// Go to another window of an app.
    SwitchWindows { reverse: bool },
    /// The modifier for switching windows was released.
    SwitchWindowsDone,
    /// Assistive technology asks for the root of the list.
    GetRootObject,
    /// The system asks what is at a point of the window.
    HitTest,
    /// The overlay was clicked.
    Click,
    /// The program is to end.
    Exit,
    /// Running at startup is to be toggled.
    ToggleStartup,
    /// The configuration is to be edited.
    Configure,
    /// The machine woke up.
    Resume,
    /// The background is to be erased.
    EraseBackground,
    /// The tray icon is to be registered: it was asked for, or the taskbar was
    /// created anew.
    RegisterTrayIcon,
    /// None of the switcher's business.
    Other,
}

/// What the window answers to a message, once it has been dealt with.
#[derive(Clone, Copy, Debug, PartialEq, Eq, Structural)]
pub enum Reply {
    /// This number.
    Value(isize),
    /// The root of the list, by way of UI Automation.
    RootProvider,
    /// Whatever the system answers by default.
    Default,
}

/// What a message asks for. `taskbar_created` is the message that tells of a new
/// taskbar; its number is only known at run time.
pub open spec fn decoded(msg: u32, wparam: usize, lparam: isize, taskbar_created: u32) -> Message {
    if msg == WM_USER_TRAYICON {
        Message::TrayIcon {
            clicked: lparam as u32 == WM_LBUTTONUP || lparam as u32 == WM_RBUTTONUP,
        }
    } else if msg == WM_USER_SWITCH_APPS {
        Message::SwitchApps { reverse: lparam == 1 }
    } else if msg == WM_USER_SWITCH_APPS_DONE {
        Message::SwitchAppsDone
    } else if msg == WM_USER_SWITCH_APPS_CANCEL {
        Message::SwitchAppsCancel
    } else if msg == WM_USER_SWITCH_WINDOWS {
        Message::SwitchWindows { reverse: lparam == 1 }
    } else if msg == WM_USER_SWITCH_WINDOWS_DONE {
        Message::SwitchWindowsDone
    } else if msg == WM_GETOBJECT {
        if lparam as i32 == UIA_ROOT_OBJECT_ID {
            Message::GetRootObject
        } else {
            Message::Other
        }
    } else if msg == WM_NCHITTEST {
        Message::HitTest
    } else if msg == WM_LBUTTONUP {
        Message::Click
    } else if msg == WM_COMMAND {
        if wparam as u32 == IDM_EXIT {
            Message::Exit
        } else if wparam as u32 == IDM_STARTUP {
            Message::ToggleStartup
        } else if wparam as u32 == IDM_CONFIGURE {
            Message::Configure
        } else {
            Message::Other
        }
    } else if msg == WM_POWERBROADCAST {
        if wparam as u32 == PBT_APMRESUMEAUTOMATIC || wparam as u32 == PBT_APMRESUMESUSPEND {
            Message::Resume
        } else {
            Message::Other
        }
    } else if msg == WM_ERASEBKGND {
        Message::EraseBackground
    } else if msg == WM_USER_REGISTER_TRAYICON || msg == taskbar_created {
        Message::RegisterTrayIcon
    } else {
        Message::Other
    }
}

/// What the window answers to a message.
pub open spec fn reply_to(message: Message) -> Reply {
    match message {
        Message::TrayIcon { .. } => Reply::Value(0),
        Message::GetRootObject => Reply::RootProvider,
        Message::HitTest => Reply::Value(HTCLIENT),
        Message::EraseBackground => Reply::Value(0),
        _ => Reply::Default,
    }
}

impl Message {
    /// Tells what a message asks for.
    pub fn decode(msg: u32, wparam: usize, lparam: isize, taskbar_created: u32) -> (message: Self)
        ensures
            message == decoded(msg, wparam, lparam, taskbar_created),
    {
        if msg == WM_USER_TRAYICON {
            let keycode = #[verifier::truncate]
            (lparam as u32);
            Message::TrayIcon { clicked: keycode == WM_LBUTTONUP || keycode == WM_RBUTTONUP }
        } else if msg == WM_USER_SWITCH_APPS {
            Message::SwitchApps { reverse: lparam == 1 }
        } else if msg == WM_USER_SWITCH_APPS_DONE {
            Message::SwitchAppsDone
        } else if msg == WM_USER_SWITCH_APPS_CANCEL {
            Message::SwitchAppsCancel
        } else if msg == WM_USER_SWITCH_WINDOWS {
            Message::SwitchWindows { reverse: lparam == 1 }
        } else if msg == WM_USER_SWITCH_WINDOWS_DONE {
            Message::SwitchWindowsDone
        } else if msg == WM_GETOBJECT {
            let object = #[verifier::truncate]
            (lparam as i32);
            if object == UIA_ROOT_OBJECT_ID {
                Message::GetRootObject
            } else {
                Message::Other
            }
        } else if msg == WM_NCHITTEST {
            Message::HitTest
        } else if msg == WM_LBUTTONUP {
            Message::Click
        } else if msg == WM_COMMAND {
            Message::decode_command(wparam)
        } else if msg == WM_POWERBROADCAST {
            let event = #[verifier::truncate]
            (wparam as u32);
            if event == PBT_APMRESUMEAUTOMATIC || event == PBT_APMRESUMESUSPEND {
                Message::Resume
            } else {
                Message::Other
            }
        } else if msg == WM_ERASEBKGND {
            Message::EraseBackground
        } else if msg == WM_USER_REGISTER_TRAYICON || msg == taskbar_created {
            Message::RegisterTrayIcon
        } else {
            Message::Other
        }
    }

    /// Tells what a command asks for. The upper half of its parameter says where it
    /// comes from, and is zero for a menu; the lower half is the menu item.
    fn decode_command(wparam: usize) -> (message: Self)
        ensures
            forall|lparam: isize, taskbar_created: u32|
                message == #[trigger] decoded(WM_COMMAND, wparam, lparam, taskbar_created),
    {
        let value = #[verifier::truncate]
        (wparam as u32);
        let kind = (value >> 16) & 0xffff;
        let id = value & 0xffff;
        assert(kind == 0 ==> id == value) by (bit_vector)
            requires
                kind == (value >> 16) & 0xffff,
                id == value & 0xffff,
        ;
        assert(kind != 0 ==> value > 0xffff) by (bit_vector)
            requires
                kind == (value >> 16) & 0xffff,
        ;
        if kind == 0 {
            if id == IDM_EXIT {
                return Message::Exit;
            } else if id == IDM_STARTUP {
                return Message::ToggleStartup;
            } else if id == IDM_CONFIGURE {
                return Message::Configure;
            }
        }
        Message::Other
    }

    /// What the window answers to the message, once it has been dealt with.
    pub fn reply(&self) -> (reply: Reply)
        ensures
            reply == reply_to(*self),
    {
        match self {
            Message::TrayIcon { .. } => Reply::Value(0),
            Message::GetRootObject => Reply::RootProvider,
            Message::HitTest => Reply::Value(HTCLIENT),
            Message::EraseBackground => Reply::Value(0),
            _ => Reply::Default,
        }
    }
}

/// What each message asks for, for whatever else it carries.
pub proof fn messages_ask_for(msg: u32, wparam: usize, lparam: isize, taskbar_created: u32)
    ensures
        decoded(6000, wparam, lparam, taskbar_created) == (Message::TrayIcon {
            clicked: lparam as u32 == 0x0202 || lparam as u32 == 0x0205,
        }),
        decoded(6010, wparam, lparam, taskbar_created) == (Message::SwitchApps {
            reverse: lparam == 1,
        }),
        decoded(6011, wparam, lparam, taskbar_created) == Message::SwitchAppsDone,
        decoded(6012, wparam, lparam, taskbar_created) == Message::SwitchAppsCancel,
        decoded(6020, wparam, lparam, taskbar_created) == (Message::SwitchWindows {
            reverse: lparam == 1,
        }),
        decoded(6021, wparam, lparam, taskbar_created) == Message::SwitchWindowsDone,
        lparam as i32 == -25 ==> decoded(0x003D, wparam, lparam, taskbar_created)
            == Message::GetRootObject,
        lparam as i32 != -25 ==> decoded(0x003D, wparam, lparam, taskbar_created)
            == Message::Other,
        decoded(0x0084, wparam, lparam, taskbar_created) == Message::HitTest,
        decoded(0x0202, wparam, lparam, taskbar_created) == Message::Click,
        decoded(0x0014, wparam, lparam, taskbar_created) == Message::EraseBackground,
        decoded(6001, wparam, lparam, taskbar_created) == Message::RegisterTrayIcon,
        msg != 6000 && msg != 6001 && !(6010 <= msg <= 6012) && msg != 6020 && msg != 6021 && msg
            != 0x003D && msg != 0x0084 && msg != 0x0202 && msg != 0x0014 && msg != 0x0111 && msg
            != 0x0218 ==> decoded(msg, wparam, lparam, taskbar_created) == (if msg
            == taskbar_created {
            Message::RegisterTrayIcon
        } else {
            Message::Other
        }),
{
}

/// A command is that of the menu item in the lower half of its parameter, provided that
/// the upper half is zero; the machine wakes up with one of two events.
pub proof fn commands_and_events_ask_for(wparam: usize, lparam: isize, taskbar_created: u32)
    ensures
        decoded(0x0111, wparam, lparam, taskbar_created) == (if wparam as u32 == 1 {
            Message::Exit
        } else if wparam as u32 == 2 {
            Message::ToggleStartup
        } else if wparam as u32 == 3 {
            Message::Configure
        } else {
            Message::Other
        }),
        decoded(0x0218, wparam, lparam, taskbar_created) is Resume <==> wparam as u32 == 0x12
            || wparam as u32 == 0x07,
        decoded(0x0218, wparam, lparam, taskbar_created) is Resume || decoded(
            0x0218,
            wparam,
            lparam,
            taskbar_created,
        ) is Other,
{
}

/// The window answers for itself only where it must: nothing to the tray icon and to
/// erasing, that every point is its own, and the root of the list.
pub proof fn replies_are_the_systems_but_for_four(message: Message)
    ensures
        message is TrayIcon ==> reply_to(message) == Reply::Value(0),
        message is EraseBackground ==> reply_to(message) == Reply::Value(0),
        message is HitTest ==> reply_to(message) == Reply::Value(1),
        message is GetRootObject ==> reply_to(message) == Reply::RootProvider,
        !(message is TrayIcon) && !(message is EraseBackground) && !(message is HitTest) && !(
        message is GetRootObject) ==> reply_to(message) == Reply::Default,
{
}

} // verus!
