//! What the window's messages ask for.
use window_switcher::message::{
    Message, Reply, HTCLIENT, IDM_CONFIGURE, IDM_EXIT, IDM_STARTUP, PBT_APMRESUMEAUTOMATIC,
    PBT_APMRESUMESUSPEND, UIA_ROOT_OBJECT_ID, WM_COMMAND, WM_ERASEBKGND, WM_GETOBJECT,
    WM_LBUTTONUP, WM_NCHITTEST, WM_POWERBROADCAST, WM_RBUTTONUP, WM_USER_REGISTER_TRAYICON,
    WM_USER_SWITCH_APPS, WM_USER_SWITCH_APPS_CANCEL, WM_USER_SWITCH_APPS_DONE,
    WM_USER_SWITCH_WINDOWS, WM_USER_SWITCH_WINDOWS_DONE, WM_USER_TRAYICON,
};

const TASKBAR_CREATED: u32 = 0xc123;

fn decode(msg: u32, wparam: usize, lparam: isize) -> Message {
    Message::decode(msg, wparam, lparam, TASKBAR_CREATED)
}

#[test]
fn message_numbers() {
    assert_eq!(WM_USER_TRAYICON, 6000);
    assert_eq!(WM_USER_REGISTER_TRAYICON, 6001);
    assert_eq!(WM_USER_SWITCH_APPS, 6010);
    assert_eq!(WM_USER_SWITCH_APPS_DONE, 6011);
    assert_eq!(WM_USER_SWITCH_APPS_CANCEL, 6012);
    assert_eq!(WM_USER_SWITCH_WINDOWS, 6020);
    assert_eq!(WM_USER_SWITCH_WINDOWS_DONE, 6021);
    assert_eq!((IDM_EXIT, IDM_STARTUP, IDM_CONFIGURE), (1, 2, 3));
    assert_eq!(WM_POWERBROADCAST, 0x0218);
}

#[test]
fn tray_icon_answers_to_released_buttons() {
    assert_eq!(
        decode(WM_USER_TRAYICON, 0, WM_LBUTTONUP as isize),
        Message::TrayIcon { clicked: true }
    );
    assert_eq!(
        decode(WM_USER_TRAYICON, 0, WM_RBUTTONUP as isize),
        Message::TrayIcon { clicked: true }
    );
    assert_eq!(decode(WM_USER_TRAYICON, 0, 0x0200), Message::TrayIcon { clicked: false });
    assert_eq!(Message::TrayIcon { clicked: false }.reply(), Reply::Value(0));
}

#[test]
fn only_one_means_reverse() {
    assert_eq!(decode(WM_USER_SWITCH_APPS, 0, 1), Message::SwitchApps { reverse: true });
    assert_eq!(decode(WM_USER_SWITCH_APPS, 0, 0), Message::SwitchApps { reverse: false });
    assert_eq!(decode(WM_USER_SWITCH_WINDOWS, 0, 1), Message::SwitchWindows { reverse: true });
    assert_eq!(decode(WM_USER_SWITCH_WINDOWS, 0, 2), Message::SwitchWindows { reverse: false });
}

#[test]
fn ends_of_switches() {
    assert_eq!(decode(WM_USER_SWITCH_APPS_DONE, 0, 0), Message::SwitchAppsDone);
    assert_eq!(decode(WM_USER_SWITCH_APPS_CANCEL, 0, 0), Message::SwitchAppsCancel);
    assert_eq!(decode(WM_USER_SWITCH_WINDOWS_DONE, 0, 0), Message::SwitchWindowsDone);
    assert_eq!(Message::SwitchAppsDone.reply(), Reply::Default);
}

#[test]
fn root_object_is_asked_for_by_its_id() {
    assert_eq!(decode(WM_GETOBJECT, 0, UIA_ROOT_OBJECT_ID as isize), Message::GetRootObject);
    assert_eq!(decode(WM_GETOBJECT, 0, 0xffff_ffe7), Message::GetRootObject);
    assert_eq!(decode(WM_GETOBJECT, 0, -4), Message::Other);
    assert_eq!(Message::GetRootObject.reply(), Reply::RootProvider);
}

#[test]
fn hit_tests_clicks_and_erasing() {
    assert_eq!(decode(WM_NCHITTEST, 0, 0), Message::HitTest);
    assert_eq!(Message::HitTest.reply(), Reply::Value(HTCLIENT));
    assert_eq!(decode(WM_LBUTTONUP, 0, 0), Message::Click);
    assert_eq!(decode(WM_ERASEBKGND, 0, 0), Message::EraseBackground);
    assert_eq!(Message::EraseBackground.reply(), Reply::Value(0));
}

#[test]
fn commands_come_from_the_menu() {
    assert_eq!(decode(WM_COMMAND, 1, 0), Message::Exit);
    assert_eq!(decode(WM_COMMAND, 2, 0), Message::ToggleStartup);
    assert_eq!(decode(WM_COMMAND, 3, 0), Message::Configure);
    assert_eq!(decode(WM_COMMAND, 4, 0), Message::Other);
    // An accelerator or a control sets the upper half.
    assert_eq!(decode(WM_COMMAND, 0x1_0001, 0), Message::Other);
}

#[test]
fn waking_up() {
    assert_eq!(decode(WM_POWERBROADCAST, PBT_APMRESUMEAUTOMATIC as usize, 0), Message::Resume);
    assert_eq!(decode(WM_POWERBROADCAST, PBT_APMRESUMESUSPEND as usize, 0), Message::Resume);
    assert_eq!(decode(WM_POWERBROADCAST, 4, 0), Message::Other);
}

#[test]
fn tray_icon_is_registered_on_request_and_with_a_new_taskbar() {
    assert_eq!(decode(WM_USER_REGISTER_TRAYICON, 0, 0), Message::RegisterTrayIcon);
    assert_eq!(decode(TASKBAR_CREATED, 0, 0), Message::RegisterTrayIcon);
    assert_eq!(decode(TASKBAR_CREATED + 1, 0, 0), Message::Other);
    assert_eq!(Message::Other.reply(), Reply::Default);
}
