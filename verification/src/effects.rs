//! What the switcher's steps do, told by what goes in and what comes out: positions,
//! keys and handles.
use crate::app::{
    app_order, arranged, cached_icon, can_switch, cancelled, cleared, committed, ended_by,
    ending_of, entries_of, entry_of, hop_step, hopped, initial, is_icon_of, kept_icons, new_icons,
    opening_step, stale_icons, switched_app, task_for, undone, window_order, App, AppModel, Ending,
    StepModel, SwitchStep, Task,
};
use crate::config::{same_settings, ConfigModel};
use crate::desktop::{
    first_app_with_the_window_owns_it, ids_of, is_open, key_stands_for_its_first_app, keys_of,
    lemma_is_open, owner, owns, title_is_that_of_the_window, window_of_no_app_has_no_owner,
    AppGroup,
};
use crate::id_set::with_inserted;
use crate::message::Message;
use crate::mru::{lemma_newcomers, lemma_occurs_same, occurs, promoted, retained, same};
use crate::seqs::{
    at_positions, lemma_concat_contains, lemma_filter_congruence, lemma_filter_contains,
    lemma_filter_none, lemma_filter_positions, lemma_filter_twice, lemma_first_of_filter, marks,
};
use crate::switch_apps::{announcement, picked, text_of, AppsSession, EntryModel};
use crate::switch_windows::{
    continues, cycling_order_is_complete, has_target, new_cycle_starts_below_the_top, next_order,
    recalled, target, WindowsSession,
};
use crate::text::texts;
use crate::uia::ListModel;
use vstd::prelude::*;

verus! {

/// A switch between windows is made on the first app that lists the window, if it lists
/// two windows or more. It then goes to one of the app's windows, and to its second one
/// where nothing is remembered of the app.
pub proof fn app_with_two_windows_is_switched(
    session: WindowsSession,
    apps: Seq<AppGroup>,
    hwnd: isize,
    reverse: bool,
    i: int,
    w: int,
) -> (v: int)
    requires
        0 <= i < apps.len(),
        0 <= w < apps[i].windows.len(),
        apps[i].windows[w].id == hwnd,
        forall|j: int, u: int|
            0 <= j < i && 0 <= u < apps[j].windows.len() ==> (
            #[trigger] apps[j].windows[u]).id != hwnd,
    ensures
        apps[i].windows.len() == 1 ==> switched_app(apps, hwnd) is None,
        apps[i].windows.len() >= 2 ==> switched_app(apps, hwnd) == Some(apps[i]),
        apps[i].windows.len() >= 2 && has_target(session, apps[i], reverse) ==> 0 <= v
            < apps[i].windows.len() && target(session, apps[i], reverse) == apps[i].windows[v].id,
        apps[i].windows.len() >= 2 && (session.cache is None || session.cache->0.key
            != apps[i].key || apps[i].windows.len() == 2) ==> has_target(
            session,
            apps[i],
            reverse,
        ) && v == 1,
{
    let app = apps[i];
    first_app_with_the_window_owns_it(apps, hwnd, i, w);
    if app.windows.len() < 2 || !has_target(session, app, reverse) {
        if app.windows.len() >= 2 && (session.cache is None || session.cache->0.key != app.key
            || app.windows.len() == 2) {
            new_cycle_starts_below_the_top(session, app, reverse, 0);
        }
        0
    } else if session.cache is None || session.cache->0.key != app.key || app.windows.len() == 2 {
        new_cycle_starts_below_the_top(session, app, reverse, 0);
        1
    } else {
        let live = ids_of(app.windows);
        let order = next_order(session, app);
        let to = target(session, app, reverse);
        if continues(session, app) {
            cycling_order_is_complete(recalled(session, app)->0.windows, live);
        }
        live.index_of_first_ensures(recalled(session, app)->0.id);
        assert(order.contains(to));
        let v = choose|v: int| 0 <= v < live.len() && live[v] == to;
        assert(app.windows[v].id == to);
        v
    }
}

/// A switch on a window that no app lists does nothing.
pub proof fn unlisted_window_switches_nothing(apps: Seq<AppGroup>, hwnd: isize)
    requires
        forall|j: int, u: int|
            0 <= j < apps.len() && 0 <= u < apps[j].windows.len() ==> (
            #[trigger] apps[j].windows[u]).id != hwnd,
    ensures
        switched_app(apps, hwnd) is None,
{
    window_of_no_app_has_no_owner(apps, hwnd);
}

/// A hop goes to the app beside, around the ends of the list, and changes nothing else.
pub proof fn hop_goes_to_the_app_beside(session: AppsSession, reverse: bool)
    requires
        session.wf(),
        session.apps.len() <= usize::MAX,
    ensures
        ({
            let next = hopped(session, reverse);
            let last = session.apps.len() - 1;
            &&& next.apps == session.apps
            &&& next.keys == session.keys
            &&& next.names == session.names
            &&& !reverse && session.index < last ==> next.index == session.index + 1
            &&& !reverse && session.index == last ==> next.index == 0
            &&& reverse && session.index > 0 ==> next.index == session.index - 1
            &&& reverse && session.index == 0 ==> next.index == last
        }),
{
}

/// A hop activates the window of the app it is on, or, with the accessible list, tells
/// of the selection only; so does opening a session, which tells of nothing yet but what
/// is to be spoken.
pub proof fn steps_are_about_the_selected_app(app: AppModel, session: AppsSession)
    requires
        session.wf(),
    ensures
        ({
            let hwnd = session.apps[session.index as int].1;
            let spoken = announcement(session, app.config.switch_apps_announce);
            &&& !app.config.switch_apps_accessible_list ==> hop_step(app, session)
                == (StepModel::Activate { hwnd, announcement: spoken })
            &&& !app.config.switch_apps_accessible_list ==> opening_step(app, session)
                == (StepModel::Activate { hwnd, announcement: spoken })
            &&& app.config.switch_apps_accessible_list ==> hop_step(app, session)
                == (StepModel::Select { announcement: spoken })
            &&& app.config.switch_apps_accessible_list ==> opening_step(app, session)
                == (StepModel::Describe { announcement: spoken })
        }),
{
}

/// Once the modifier of an open session is released, the session ends on the selected
/// app: its window is activated and not minimized again, and app and window become the
/// most recent ones.
pub proof fn release_switches_to_the_selected_app(
    app: AppModel,
    session: AppsSession,
    foreground: isize,
)
    requires
        app.apps == Some(session),
        session.wf(),
    ensures
        ({
            let task = task_for(app, Message::SwitchAppsDone);
            let after = ended_by(app, task);
            let hwnd = session.apps[session.index as int].1;
            &&& ending_of(app, task, foreground) == Some(
                Ending { activate: Some(hwnd), keep: Some(hwnd) },
            )
            &&& after.app_mru.len() > 0 && after.app_mru[0] == session.keys[session.index as int]
            &&& after.window_mru.len() > 0 && after.window_mru[0] == hwnd
            &&& after.apps is None
        }),
{
}

/// Once an open session is cancelled, it ends where the user came from, whatever is in
/// the foreground by then: that window is activated and not minimized again, and no app
/// or window counts as used.
pub proof fn escape_takes_the_user_back(
    app: AppModel,
    session: AppsSession,
    foreground: isize,
)
    requires
        app.apps == Some(session),
    ensures
        ({
            let task = task_for(app, Message::SwitchAppsCancel);
            let after = ended_by(app, task);
            &&& ending_of(app, task, foreground) == Some(
                Ending { activate: app.original_foreground, keep: app.original_foreground },
            )
            &&& after.app_mru == app.app_mru
            &&& after.window_mru == app.window_mru
            &&& after.apps is None
        }),
{
}

/// A switch between windows ends an open session where it went: nothing more is
/// activated, the window in the foreground stays, and the apps keep their order.
pub proof fn switching_windows_ends_the_session_there(
    app: AppModel,
    session: AppsSession,
    reverse: bool,
    foreground: isize,
)
    requires
        app.apps == Some(session),
    ensures
        ({
            let task = task_for(app, Message::SwitchWindows { reverse });
            let after = ended_by(app, task);
            &&& task == (Task::SwitchWindows { reverse })
            &&& ending_of(app, task, foreground) == Some(
                Ending { activate: None, keep: Some(foreground) },
            )
            &&& after.app_mru == app.app_mru
            &&& after.window_mru == app.window_mru
            &&& after.apps is None
        }),
{
}

/// Every other message leaves an open session to go on.
pub proof fn other_messages_keep_the_session(app: AppModel, message: Message, foreground: isize)
    requires
        !(message is SwitchAppsDone),
        !(message is SwitchAppsCancel),
        !(message is SwitchWindows),
    ensures
        ending_of(app, task_for(app, message), foreground) is None,
{
}

/// A message leads to a step between apps exactly if it asks for one; that step opens a
/// session exactly if there is none, and goes the way that the message says.
pub proof fn step_between_apps_opens_or_hops(app: AppModel, message: Message, reverse: bool)
    ensures
        task_for(app, Message::SwitchApps { reverse }) == (Task::SwitchApps {
            reverse,
            opening: app.apps is None,
        }),
        task_for(app, message) is SwitchApps <==> message is SwitchApps,
{
}

/// The tray icon has a menu, and is registered, only where there is one.
pub proof fn tray_icon_needs_to_exist(app: AppModel, clicked: bool)
    ensures
        task_for(app, Message::TrayIcon { clicked }) is ShowTrayMenu <==> app.trayicon && clicked,
        task_for(app, Message::TrayIcon { clicked }) is ShowTrayMenu || task_for(
            app,
            Message::TrayIcon { clicked },
        ) is Nothing,
        task_for(app, Message::RegisterTrayIcon) is RegisterTrayIcon <==> app.trayicon,
        task_for(app, Message::RegisterTrayIcon) is RegisterTrayIcon || task_for(
            app,
            Message::RegisterTrayIcon,
        ) is Nothing,
{
}

/// What any other message leads to is the same in every state of the switcher.
pub proof fn tasks_do_not_depend_on_the_state(a: AppModel, b: AppModel, message: Message)
    ensures
        !(message is SwitchApps) && a.trayicon == b.trayicon ==> task_for(a, message) == task_for(
            b,
            message,
        ),
        task_for(a, Message::Exit) is Exit,
        task_for(a, Message::Click) is Click,
        task_for(a, Message::Configure) is Configure,
        task_for(a, Message::ToggleStartup) is ToggleStartup,
        task_for(a, Message::Resume) is ReinstallHooks,
        task_for(a, Message::GetRootObject) is ProvideRoot,
        message is SwitchWindowsDone || message is HitTest || message is EraseBackground || message
            is Other ==> task_for(a, message) is Nothing,
{
}

/// Committing puts the selected app and its window in front of the others, which keep
/// their order, and forgets the session. Nothing else changes. The positions listed are
/// those of the other apps and windows.
pub proof fn commit_promotes_the_selected_app(app: AppModel, session: AppsSession) -> (at: (
    Seq<int>,
    Seq<int>,
))
    requires
        session.wf(),
    ensures
        ({
            let key = session.keys[session.index as int];
            let hwnd = session.apps[session.index as int].1;
            let after = committed(app, session);
            &&& marks(at.0, app.app_mru, |k: Seq<char>| k != key)
            &&& after.app_mru == seq![key] + at_positions(app.app_mru, at.0)
            &&& marks(at.1, app.window_mru, |id: isize| id != hwnd)
            &&& after.window_mru == seq![hwnd] + at_positions(app.window_mru, at.1)
            &&& after.apps is None
            &&& after.original_foreground is None
            &&& after.restored_windows.len() == 0
            &&& after.config == app.config
            &&& after.is_admin == app.is_admin
            &&& after.trayicon == app.trayicon
            &&& after.windows == app.windows
            &&& after.icons == app.icons
        }),
{
    let key = session.keys[session.index as int];
    let hwnd = session.apps[session.index as int].1;
    let other_key = |k: Seq<char>| k != key;
    let other_hwnd = |id: isize| id != hwnd;
    lemma_filter_congruence(app.app_mru, |k: Seq<char>| !same::<Seq<char>>()(k, key), other_key);
    lemma_filter_congruence(app.window_mru, |id: isize| !same::<isize>()(id, hwnd), other_hwnd);
    let a = lemma_filter_positions(app.app_mru, other_key);
    let b = lemma_filter_positions(app.window_mru, other_hwnd);
    (a, b)
}

/// Cancelling forgets the session and nothing else.
pub proof fn cancel_forgets_the_session_only(app: AppModel)
    ensures
        ({
            let after = cancelled(app);
            &&& after.apps is None
            &&& after.original_foreground is None
            &&& after.restored_windows.len() == 0
            &&& after.config == app.config
            &&& after.is_admin == app.is_admin
            &&& after.trayicon == app.trayicon
            &&& after.windows == app.windows
            &&& after.app_mru == app.app_mru
            &&& after.window_mru == app.window_mru
            &&& after.icons == app.icons
        }),
{
}

/// The windows to minimize again are all that were restored but the one that is kept, in
/// the order in which they were restored: `at` lists where those stand.
pub proof fn undoing_keeps_the_order(restored: Seq<isize>, keep: Option<isize>) -> (at: Seq<int>)
    ensures
        marks(at, restored, |id: isize| keep != Some(id)),
        undone(restored, keep) == at_positions(restored, at),
{
    let at = lemma_filter_positions(restored, |id: isize| keep != Some(id));
    at
}

/// What is inserted is added at the end, unless it is there already.
pub proof fn inserting_adds_what_is_missing(s: Seq<isize>, x: isize, i: int)
    ensures
        0 <= i < s.len() && s[i] == x ==> with_inserted(s, x) == s,
        (forall|j: int| 0 <= j < s.len() ==> #[trigger] s[j] != x) ==> with_inserted(s, x)
            == s.push(x),
{
}

proof fn lemma_app_order(
    app_mru: Seq<Seq<char>>,
    apps: Seq<AppGroup>,
    foreground: isize,
    front: Seq<Seq<char>>,
    wanted: spec_fn(Seq<char>) -> bool,
) -> (at: (Seq<int>, Seq<int>))
    requires
        front == (match owner(apps, foreground) {
            Some(group) => seq![group.key],
            None => Seq::empty(),
        }),
        owner(apps, foreground) is Some ==> keys_of(apps).contains(
            owner(apps, foreground)->0.key,
        ),
        forall|k: Seq<char>| #[trigger]
            wanted(k) <==> !front.contains(k) && keys_of(apps).contains(k),
    ensures
        marks(at.0, app_mru, wanted),
        app_order(app_mru, apps, foreground) == front + at_positions(app_mru, at.0) + at_positions(
            keys_of(apps),
            at.1,
        ),
        forall|k: int|
            0 <= k < at.1.len() ==> {
                &&& 0 <= #[trigger] at.1[k] < apps.len()
                &&& !front.contains(keys_of(apps)[at.1[k]])
                &&& !app_mru.contains(keys_of(apps)[at.1[k]])
                &&& !keys_of(apps).take(at.1[k]).contains(keys_of(apps)[at.1[k]])
            },
        forall|k: int, l: int| 0 <= k < l < at.1.len() ==> #[trigger] at.1[k] < #[trigger] at.1[l],
        forall|q: int|
            0 <= q < apps.len() && !front.contains(#[trigger] keys_of(apps)[q])
                && !app_mru.contains(keys_of(apps)[q]) && !keys_of(apps).take(q).contains(
                keys_of(apps)[q],
            ) ==> at.1.contains(q),
{
    let keys = keys_of(apps);
    let is_present = |k: Seq<char>| occurs(keys, k, same());
    let known = match owner(apps, foreground) {
        Some(group) => promoted(app_mru, group.key, same()),
        None => app_mru,
    };
    let kept = retained(known, keys, same());
    match owner(apps, foreground) {
        Some(group) => {
            let key = group.key;
            let is_other = |k: Seq<char>| !same::<Seq<char>>()(k, key);
            assert(front[0] == key);
            lemma_occurs_same(keys, key);
            Seq::filter_distributes_over_add(seq![key], app_mru.filter(is_other), is_present);
            lemma_first_of_filter(seq![key], 0, is_present);
            assert(seq![key].filter(is_present) =~= seq![key]) by {
                seq![key].lemma_filter_len(is_present);
            }
            lemma_filter_twice(app_mru, is_other, is_present);
            let both = |k: Seq<char>| is_other(k) && is_present(k);
            assert forall|j: int| 0 <= j < app_mru.len() implies both(#[trigger] app_mru[j])
                == wanted(app_mru[j]) by {
                lemma_occurs_same(keys, app_mru[j]);
                assert(front.contains(app_mru[j]) <==> app_mru[j] == key);
            }
            lemma_filter_congruence(app_mru, both, wanted);
        },
        None => {
            assert forall|j: int| 0 <= j < app_mru.len() implies is_present(#[trigger] app_mru[j])
                == wanted(app_mru[j]) by {
                lemma_occurs_same(keys, app_mru[j]);
            }
            lemma_filter_congruence(app_mru, is_present, wanted);
            assert(front + app_mru.filter(wanted) =~= app_mru.filter(wanted));
        },
    }
    assert(kept == front + app_mru.filter(wanted));
    let old = lemma_filter_positions(app_mru, wanted);
    let new = lemma_newcomers(kept, keys);
    assert forall|q: int| 0 <= q < keys.len() implies kept.contains(#[trigger] keys[q]) == (
    front.contains(keys[q]) || app_mru.contains(keys[q])) by {
        assert(keys.contains(keys[q]));
        lemma_concat_contains(front, app_mru.filter(wanted), keys[q]);
        lemma_filter_contains(app_mru, wanted, keys[q]);
    }
    (old, new)
}

/// The apps are shown in this order: the one in the foreground; then those used before,
/// as they stand in the MRU list; then those never used, as they are listed, each under
/// its first listing. Apps that are not open are not shown. The positions listed are
/// those in the MRU list and in the list of open apps.
pub proof fn apps_are_shown_by_use(
    app_mru: Seq<Seq<char>>,
    apps: Seq<AppGroup>,
    foreground: isize,
    i: int,
    w: int,
) -> (at: (Seq<int>, Seq<int>))
    requires
        0 <= i < apps.len(),
        0 <= w < apps[i].windows.len(),
        apps[i].windows[w].id == foreground,
        forall|j: int, u: int|
            0 <= j < i && 0 <= u < apps[j].windows.len() ==> (
            #[trigger] apps[j].windows[u]).id != foreground,
    ensures
        marks(at.0, app_mru, |k: Seq<char>| k != apps[i].key && keys_of(apps).contains(k)),
        app_order(app_mru, apps, foreground) == seq![apps[i].key] + at_positions(app_mru, at.0)
            + at_positions(keys_of(apps), at.1),
        forall|k: int|
            0 <= k < at.1.len() ==> {
                &&& 0 <= #[trigger] at.1[k] < apps.len()
                &&& apps[at.1[k]].key != apps[i].key
                &&& !app_mru.contains(apps[at.1[k]].key)
                &&& !keys_of(apps).take(at.1[k]).contains(apps[at.1[k]].key)
            },
        forall|k: int, l: int| 0 <= k < l < at.1.len() ==> #[trigger] at.1[k] < #[trigger] at.1[l],
        forall|q: int|
            0 <= q < apps.len() && (#[trigger] apps[q]).key != apps[i].key && !app_mru.contains(
                apps[q].key,
            ) && !keys_of(apps).take(q).contains(apps[q].key) ==> at.1.contains(q),
{
    first_app_with_the_window_owns_it(apps, foreground, i, w);
    let keys = keys_of(apps);
    let front = seq![apps[i].key];
    assert(keys[i] == apps[i].key);
    let wanted = |k: Seq<char>| k != apps[i].key && keys_of(apps).contains(k);
    assert forall|k: Seq<char>| #[trigger]
        wanted(k) <==> !front.contains(k) && keys.contains(k) by {
        assert(front[0] == apps[i].key);
    }
    let at = lemma_app_order(app_mru, apps, foreground, front, wanted);
    assert forall|k: int| 0 <= k < at.1.len() implies {
        &&& 0 <= #[trigger] at.1[k] < apps.len()
        &&& apps[at.1[k]].key != apps[i].key
        &&& !app_mru.contains(apps[at.1[k]].key)
        &&& !keys_of(apps).take(at.1[k]).contains(apps[at.1[k]].key)
    } by {
        assert(keys[at.1[k]] == apps[at.1[k]].key);
        assert(front[0] == apps[i].key);
    }
    assert forall|q: int|
        0 <= q < apps.len() && (#[trigger] apps[q]).key != apps[i].key && !app_mru.contains(
            apps[q].key,
        ) && !keys_of(apps).take(q).contains(apps[q].key) implies at.1.contains(q) by {
        assert(keys[q] == apps[q].key);
        assert(!front.contains(keys[q]));
    }
    at
}

/// The same where the window in the foreground belongs to no listed app: there is none
/// to come first.
pub proof fn apps_are_shown_by_use_alone(
    app_mru: Seq<Seq<char>>,
    apps: Seq<AppGroup>,
    foreground: isize,
) -> (at: (Seq<int>, Seq<int>))
    requires
        forall|j: int, u: int|
            0 <= j < apps.len() && 0 <= u < apps[j].windows.len() ==> (
            #[trigger] apps[j].windows[u]).id != foreground,
    ensures
        marks(at.0, app_mru, |k: Seq<char>| keys_of(apps).contains(k)),
        app_order(app_mru, apps, foreground) == at_positions(app_mru, at.0) + at_positions(
            keys_of(apps),
            at.1,
        ),
        forall|k: int|
            0 <= k < at.1.len() ==> {
                &&& 0 <= #[trigger] at.1[k] < apps.len()
                &&& !app_mru.contains(apps[at.1[k]].key)
                &&& !keys_of(apps).take(at.1[k]).contains(apps[at.1[k]].key)
            },
        forall|k: int, l: int| 0 <= k < l < at.1.len() ==> #[trigger] at.1[k] < #[trigger] at.1[l],
        forall|q: int|
            0 <= q < apps.len() && !app_mru.contains((#[trigger] apps[q]).key) && !keys_of(
                apps,
            ).take(q).contains(apps[q].key) ==> at.1.contains(q),
{
    window_of_no_app_has_no_owner(apps, foreground);
    let keys = keys_of(apps);
    let front = Seq::<Seq<char>>::empty();
    let wanted = |k: Seq<char>| keys_of(apps).contains(k);
    let at = lemma_app_order(app_mru, apps, foreground, front, wanted);
    assert(front + at_positions(app_mru, at.0) =~= at_positions(app_mru, at.0));
    assert forall|k: int| 0 <= k < at.1.len() implies {
        &&& 0 <= #[trigger] at.1[k] < apps.len()
        &&& !app_mru.contains(apps[at.1[k]].key)
        &&& !keys_of(apps).take(at.1[k]).contains(apps[at.1[k]].key)
    } by {
        assert(keys[at.1[k]] == apps[at.1[k]].key);
    }
    assert forall|q: int|
        0 <= q < apps.len() && !app_mru.contains((#[trigger] apps[q]).key) && !keys_of(apps).take(
            q,
        ).contains(apps[q].key) implies at.1.contains(q) by {
        assert(keys[q] == apps[q].key);
    }
    at
}

/// Some app lists the window.
pub open spec fn is_listed(apps: Seq<AppGroup>, id: isize) -> bool {
    exists|j: int, u: int|
        0 <= j < apps.len() && 0 <= u < apps[j].windows.len() && (
        #[trigger] apps[j].windows[u]).id == id
}

proof fn lemma_is_listed(apps: Seq<AppGroup>, id: isize)
    ensures
        is_open(apps, id) <==> is_listed(apps, id),
{
    lemma_is_open(apps, id);
    if is_open(apps, id) {
        let j = choose|j: int| 0 <= j < apps.len() && owns(#[trigger] apps[j], id);
        let u = choose|u: int|
            0 <= u < ids_of(apps[j].windows).len() && ids_of(apps[j].windows)[u] == id;
        assert(apps[j].windows[u].id == id);
    }
    if is_listed(apps, id) {
        let (j, u) = choose|j: int, u: int|
            0 <= j < apps.len() && 0 <= u < apps[j].windows.len() && (
            #[trigger] apps[j].windows[u]).id == id;
        assert(ids_of(apps[j].windows)[u] == id);
        assert(owns(apps[j], id));
    }
}

/// When the apps are arranged, the window in the foreground comes first among the windows
/// used, if it is listed, and behind it all others that are still listed, in order: `at`
/// lists where those stood.
pub proof fn windows_are_kept_by_use(
    window_mru: Seq<isize>,
    apps: Seq<AppGroup>,
    foreground: isize,
) -> (at: Seq<int>)
    ensures
        is_listed(apps, foreground) ==> marks(
            at,
            window_mru,
            |id: isize| id != foreground && is_listed(apps, id),
        ) && window_order(window_mru, apps, foreground) == seq![foreground] + at_positions(
            window_mru,
            at,
        ),
        !is_listed(apps, foreground) ==> marks(at, window_mru, |id: isize| is_listed(apps, id))
            && window_order(window_mru, apps, foreground) == at_positions(window_mru, at),
{
    let open = |id: isize| is_open(apps, id);
    let listed = |id: isize| is_listed(apps, id);
    lemma_is_listed(apps, foreground);
    assert forall|j: int| 0 <= j < window_mru.len() implies open(#[trigger] window_mru[j])
        == listed(window_mru[j]) by {
        lemma_is_listed(apps, window_mru[j]);
    }
    lemma_filter_congruence(window_mru, open, listed);
    if is_listed(apps, foreground) {
        let is_other = |id: isize| !same::<isize>()(id, foreground);
        let wanted = |id: isize| id != foreground && is_listed(apps, id);
        lemma_filter_twice(window_mru, listed, is_other);
        lemma_filter_congruence(
            window_mru,
            |id: isize| listed(id) && is_other(id),
            wanted,
        );
        let at = lemma_filter_positions(window_mru, wanted);
        at
    } else {
        let at = lemma_filter_positions(window_mru, listed);
        at
    }
}

/// The icons that are kept are those of the apps that are listed, and the others are to
/// be destroyed; both in order. The positions listed are those of the kept icons and of
/// the others.
pub proof fn icons_go_with_their_apps(
    icons: Seq<(Seq<char>, isize)>,
    apps: Seq<AppGroup>,
) -> (at: (Seq<int>, Seq<int>))
    ensures
        marks(at.0, icons, |p: (Seq<char>, isize)| keys_of(apps).contains(p.0)),
        kept_icons(icons, apps) == at_positions(icons, at.0),
        marks(at.1, icons, |p: (Seq<char>, isize)| !keys_of(apps).contains(p.0)),
        stale_icons(icons, apps).len() == at.1.len(),
        forall|k: int|
            0 <= k < at.1.len() ==> #[trigger] stale_icons(icons, apps)[k] == icons[at.1[k]].1,
{
    let a = lemma_filter_positions(
        icons,
        |p: (Seq<char>, isize)| keys_of(apps).contains(p.0),
    );
    let b = lemma_filter_positions(
        icons,
        |p: (Seq<char>, isize)| !keys_of(apps).contains(p.0),
    );
    (a, b)
}

/// An app's icon is the first one cached under its key; without one it has none.
pub proof fn icon_is_cached_under_the_key(icons: Seq<(Seq<char>, isize)>, key: Seq<char>, i: int)
    requires
        0 <= i <= icons.len(),
        forall|j: int| 0 <= j < i ==> (#[trigger] icons[j]).0 != key,
    ensures
        i < icons.len() && icons[i].0 == key ==> cached_icon(icons, key) == Some(icons[i].1),
        i == icons.len() ==> cached_icon(icons, key) is None,
{
    let wanted = |p: (Seq<char>, isize)| is_icon_of(p, key);
    assert forall|j: int| 0 <= j < i implies !wanted(#[trigger] icons[j]) by {
        assert(icons[j].0 != key);
    }
    if i == icons.len() {
        lemma_filter_none(icons, wanted);
    } else if icons[i].0 == key {
        lemma_first_of_filter(icons, i, wanted);
    }
}

/// The icons loaded for a session are cached under the keys of the entries that had
/// none, in order: `at` lists where those stand.
pub proof fn loaded_icons_are_cached_under_their_keys(
    entries: Seq<EntryModel>,
    loaded: Seq<isize>,
) -> (at: Seq<int>)
    ensures
        marks(at, entries, |e: EntryModel| e.icon is None),
        new_icons(entries, loaded).len() == at.len(),
        forall|k: int|
            0 <= k < at.len() ==> #[trigger] new_icons(entries, loaded)[k] == (
                entries[at[k]].key,
                loaded[k],
            ),
{
    let at = lemma_filter_positions(entries, |e: EntryModel| e.icon is None);
    at
}

/// An app is shown by the window that is picked among those of its first listing, under
/// that window's title, with the icon cached under its key.
pub proof fn entry_shows_the_picked_window(
    app: AppModel,
    apps: Seq<AppGroup>,
    key: Seq<char>,
    i: int,
    w: int,
)
    requires
        0 <= i < apps.len(),
        apps[i].key == key,
        forall|j: int| 0 <= j < i ==> (#[trigger] apps[j]).key != key,
        0 <= w < apps[i].windows.len(),
        apps[i].windows[w].id == picked(app.window_mru, apps[i].windows),
        forall|v: int|
            0 <= v < w ==> (#[trigger] apps[i].windows[v]).id != apps[i].windows[w].id,
    ensures
        ({
            let entry = entry_of(app, apps, key);
            &&& entry.key == key
            &&& entry.window == apps[i].windows[w].id
            &&& entry.name == apps[i].windows[w].title
            &&& entry.icon == cached_icon(app.icons, key)
        }),
{
    key_stands_for_its_first_app(apps, key, i);
    title_is_that_of_the_window(apps[i].windows, apps[i].windows[w].id, w);
}

/// Arranging the apps touches the orders of use and the icons, and nothing else.
pub proof fn arranging_leaves_the_rest(app: AppModel, apps: Seq<AppGroup>, foreground: isize)
    ensures
        ({
            let after = arranged(app, apps, foreground);
            &&& after.app_mru == app_order(app.app_mru, apps, foreground)
            &&& after.window_mru == window_order(app.window_mru, apps, foreground)
            &&& after.icons == kept_icons(app.icons, apps)
            &&& after.config == app.config
            &&& after.is_admin == app.is_admin
            &&& after.trayicon == app.trayicon
            &&& after.windows == app.windows
            &&& after.apps == app.apps
            &&& after.restored_windows == app.restored_windows
            &&& after.original_foreground == app.original_foreground
        }),
{
}

/// The switcher starts with its settings, and with nothing used, shown or remembered.
pub proof fn switcher_starts_with_its_settings_only(config: ConfigModel, is_admin: bool)
    ensures
        ({
            let app = initial(config, is_admin);
            &&& app.config == config
            &&& app.is_admin == is_admin
            &&& app.trayicon == config.trayicon
            &&& app.windows.cache is None
            &&& app.windows.modifier_released
            &&& app.apps is None
            &&& app.app_mru.len() == 0
            &&& app.window_mru.len() == 0
            &&& app.restored_windows.len() == 0
            &&& app.icons.len() == 0
            &&& app.original_foreground is None
        }),
{
}

/// Two configurations say the same exactly if every setting is the same, and each icon
/// override of one is one of the other.
pub proof fn every_setting_counts(a: ConfigModel, b: ConfigModel)
    ensures
        same_settings(a, b) <==> {
            &&& a.trayicon == b.trayicon
            &&& a.hotkeys == b.hotkeys
            &&& a.switch_windows_blacklist == b.switch_windows_blacklist
            &&& a.switch_windows_ignore_minimal == b.switch_windows_ignore_minimal
            &&& a.switch_windows_only_current_desktop == b.switch_windows_only_current_desktop
            &&& a.switch_apps_ignore_minimal == b.switch_apps_ignore_minimal
            &&& a.switch_apps_only_current_desktop == b.switch_apps_only_current_desktop
            &&& a.switch_apps_announce == b.switch_apps_announce
            &&& a.switch_apps_accessible_list == b.switch_apps_accessible_list
            &&& forall|o: (Seq<char>, Seq<char>)| #[trigger]
                a.switch_apps_override_icons.contains(o)
                    <==> b.switch_apps_override_icons.contains(o)
        },
{
    let x = a.switch_apps_override_icons;
    let y = b.switch_apps_override_icons;
    if x.to_set() == y.to_set() {
        assert forall|o: (Seq<char>, Seq<char>)| #[trigger] x.contains(o) <==> y.contains(o) by {
            assert(x.to_set().contains(o) <==> y.to_set().contains(o));
        }
    }
    if forall|o: (Seq<char>, Seq<char>)| #[trigger] x.contains(o) <==> y.contains(o) {
        assert(x.to_set() =~= y.to_set());
    }
}

/// The entries are those of the apps in their order.
pub proof fn entries_follow_the_order(app: AppModel, apps: Seq<AppGroup>, i: int)
    ensures
        entries_of(app, apps).len() == app.app_mru.len(),
        0 <= i < app.app_mru.len() ==> entries_of(app, apps)[i] == entry_of(
            app,
            apps,
            app.app_mru[i],
        ),
{
}

/// Ending a session leaves a list that shows nothing, of the same window.
pub proof fn ended_session_shows_nothing(uia: ListModel)
    ensures
        cleared(uia).hwnd == uia.hwnd,
        cleared(uia).selection.names.len() == 0,
        cleared(uia).selection.rects.len() == 0,
        cleared(uia).selection.selected == 0,
{
}

/// The switcher is modelled field by field, its icons one by one and in order.
pub proof fn switcher_is_modelled_field_by_field(app: App, i: int)
    ensures
        app@.config == app.config@,
        app@.is_admin == app.is_admin,
        app@.trayicon == app.trayicon,
        app@.windows == app.switch_windows_state@,
        app.switch_apps_state is None <==> app@.apps is None,
        app.switch_apps_state matches Some(state) ==> app@.apps == Some(state@),
        app@.app_mru == texts(app.app_mru@),
        app@.window_mru == app.window_mru@,
        app@.restored_windows == app.restored_windows@,
        app@.icons.len() == app.cached_icons@.len(),
        0 <= i < app.cached_icons@.len() ==> app@.icons[i] == (
            app.cached_icons@[i].key@,
            app.cached_icons@[i].icon,
        ),
        app@.original_foreground == app.original_foreground,
{
}

/// A switch between windows is possible whenever the window's app lists just that one or
/// has a target, and where no app lists the window.
pub proof fn switch_is_possible_unless_out_of_reach(
    app: AppModel,
    apps: Seq<AppGroup>,
    hwnd: isize,
    reverse: bool,
    i: int,
    w: int,
)
    requires
        0 <= i <= apps.len(),
        forall|j: int, u: int|
            0 <= j < i && 0 <= u < apps[j].windows.len() ==> (
            #[trigger] apps[j].windows[u]).id != hwnd,
        i < apps.len() ==> 0 <= w < apps[i].windows.len() && apps[i].windows[w].id == hwnd,
    ensures
        can_switch(app, apps, hwnd, reverse) <==> i == apps.len() || apps[i].windows.len() == 1
            || has_target(app.windows, apps[i], reverse),
{
    if i < apps.len() {
        app_with_two_windows_is_switched(app.windows, apps, hwnd, reverse, i, w);
    } else {
        unlisted_window_switches_nothing(apps, hwnd);
    }
}

/// What a step asks for is modelled as it is.
pub proof fn steps_are_modelled_as_they_are(
    step: SwitchStep,
    text: String,
)
    ensures
        text_of(Some(text)) == Some(text@),
        text_of(None) is None,
        step matches SwitchStep::List(request) ==> step@ == StepModel::List(request),
        step matches SwitchStep::Activate { hwnd, announcement } ==> step@
            == (StepModel::Activate { hwnd, announcement: text_of(announcement) }),
        step matches SwitchStep::Select { announcement } ==> step@ == (StepModel::Select {
            announcement: text_of(announcement),
        }),
        step matches SwitchStep::Describe { announcement } ==> step@ == (StepModel::Describe {
            announcement: text_of(announcement),
        }),
{
}

} // verus!
