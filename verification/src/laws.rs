//! What holds of the switcher as a whole.
use crate::app::{
    app_order, arranged, cached_icon, cancelled, committed, entries_of, fits, hopped, is_icon_of,
    kept_icons, new_icons, stale_icons, undone, window_order, AppModel,
};
use crate::config::{HotkeyModel, SWITCH_APPS_HOTKEY_ID, SWITCH_WINDOWS_HOTKEY_ID};
use crate::desktop::{
    group_of, ids_of, is_open, keys_of, lemma_is_open, owner, owns, AppGroup, WindowModel,
};
use crate::id_set::{distinct, lemma_distinct, with_inserted};
use crate::keyboard::{action_post, done_post, SCANCODE_ESCAPE, SCANCODE_LEFT, SCANCODE_UP};
use crate::message::{decoded, Message};
use crate::mru::{
    lemma_occurs_same, lemma_promoted_no_duplicates, occurs, order_is_complete,
    order_keeps_known_items_first, promoted, retained, same,
};
use crate::seqs::{
    lemma_filter_congruence, lemma_filter_contains, lemma_filter_no_duplicates, lemma_filter_none,
    lemma_filter_take, lemma_filter_twice, lemma_first_of_filter,
};
use crate::switch_apps::{first_index, icon_at, picked, without_icon, AppsSession, EntryModel};
use crate::switch_windows::{
    around, continues, cycling_order_is_complete, has_target, lemma_around, lemma_steps_to,
    next_order, recalled, steps_to, target, WindowsSession,
};
use vstd::prelude::*;

verus! {

/// A hop back undoes a hop.
pub proof fn hop_back_undoes_hop(session: AppsSession, reverse: bool)
    requires
        session.wf(),
        session.apps.len() <= usize::MAX,
    ensures
        hopped(session, reverse).wf(),
        hopped(hopped(session, reverse), !reverse) == session,
{
}

/// The session after `hops` hops, all one way.
pub open spec fn hopped_on(session: AppsSession, hops: nat, reverse: bool) -> AppsSession
    decreases hops,
{
    if hops == 0 {
        session
    } else {
        hopped(hopped_on(session, (hops - 1) as nat, reverse), reverse)
    }
}

proof fn lemma_hopped_on(session: AppsSession, hops: nat, reverse: bool)
    requires
        session.wf(),
        session.apps.len() <= usize::MAX,
        hops <= session.apps.len(),
    ensures
        hopped_on(session, hops, reverse) == (AppsSession {
            index: around(
                session.index as int,
                session.apps.len() as int,
                hops as int,
                reverse,
            ) as usize,
            ..session
        }),
    decreases hops,
{
    if hops > 0 {
        lemma_hopped_on(session, (hops - 1) as nat, reverse);
        lemma_around(session.index as int, session.apps.len() as int, hops - 1, reverse);
    }
}

/// One way or the other, as many hops as there are apps select each of them exactly
/// once, and lead back to the start.
pub proof fn hops_select_every_app_once(session: AppsSession, reverse: bool, i: int) -> (hops: nat)
    requires
        session.wf(),
        session.apps.len() <= usize::MAX,
        0 <= i < session.apps.len(),
    ensures
        1 <= hops <= session.apps.len(),
        forall|h: nat|
            1 <= h <= session.apps.len() ==> ((#[trigger] hopped_on(session, h, reverse)).index == i
                <==> h == hops),
        hopped_on(session, session.apps.len(), reverse) == session,
{
    let n = session.apps.len();
    let start = session.index as int;
    let hops = steps_to(start, n as int, i, reverse);
    assert forall|h: nat| 1 <= h <= n implies ((#[trigger] hopped_on(session, h, reverse)).index
        == i <==> h == hops) by {
        lemma_hopped_on(session, h, reverse);
        lemma_steps_to(start, n as int, i, h as int, reverse);
    }
    lemma_steps_to(start, n as int, i, 1, reverse);
    lemma_hopped_on(session, n, reverse);
    hops as nat
}

/// Within one full round no app is selected twice.
pub proof fn hops_repeat_no_app(session: AppsSession, reverse: bool, g: nat, h: nat)
    requires
        session.wf(),
        session.apps.len() <= usize::MAX,
        1 <= g < h <= session.apps.len(),
    ensures
        hopped_on(session, g, reverse).index != hopped_on(session, h, reverse).index,
{
    lemma_hopped_on(session, g, reverse);
    lemma_hopped_on(session, h, reverse);
}

/// A hop to another app and, where it activates a window, the activation.
pub struct Hop {
    pub reverse: bool,
    /// Whether the window had to be restored from the taskbar.
    pub restored: bool,
}

/// The switcher once the window of the selected app was activated as a candidate.
pub open spec fn activated(app: AppModel, restored: bool) -> AppModel {
    match app.apps {
        Some(session) => AppModel {
            restored_windows: if restored {
                with_inserted(app.restored_windows, session.selected_window()->0)
            } else {
                app.restored_windows
            },
            ..app
        },
        None => app,
    }
}

/// The switcher after a sequence of hops.
pub open spec fn after_hops(app: AppModel, hops: Seq<Hop>) -> AppModel
    decreases hops.len(),
{
    if hops.len() == 0 {
        app
    } else {
        let before = after_hops(app, hops.drop_last());
        match before.apps {
            Some(session) => activated(
                AppModel { apps: Some(hopped(session, hops.last().reverse)), ..before },
                hops.last().restored,
            ),
            None => before,
        }
    }
}

/// The windows that were restored from the taskbar in a session: for the app on which
/// it opened, if `opening` says so, and then on the hops, one after the other.
pub open spec fn previewed(app: AppModel, opening: bool, hops: Seq<Hop>) -> Seq<isize>
    decreases hops.len(),
{
    if hops.len() == 0 {
        if opening {
            seq![app.apps->0.selected_window()->0]
        } else {
            Seq::empty()
        }
    } else {
        let before = previewed(app, opening, hops.drop_last());
        if hops.last().restored {
            before.push(after_hops(app, hops).apps->0.selected_window()->0)
        } else {
            before
        }
    }
}

/// Hops neither reorder apps or windows nor touch where the user came from: to
/// look around and then cancel leaves the switcher as cancelling at once does.
pub proof fn looking_around_leaves_no_trace(app: AppModel, hops: Seq<Hop>)
    ensures
        after_hops(app, hops).app_mru == app.app_mru,
        after_hops(app, hops).window_mru == app.window_mru,
        after_hops(app, hops).original_foreground == app.original_foreground,
        cancelled(after_hops(app, hops)) == cancelled(app),
        cancelled(app).app_mru == app.app_mru,
        cancelled(app).window_mru == app.window_mru,
    decreases hops.len(),
{
    if hops.len() > 0 {
        looking_around_leaves_no_trace(app, hops.drop_last());
    }
}

/// The most recently used window of an app is the one that is picked.
pub proof fn most_recent_window_is_picked(
    window_mru: Seq<isize>,
    hwnd: isize,
    windows: Seq<WindowModel>,
)
    requires
        ids_of(windows).contains(hwnd),
    ensures
        picked(promoted(window_mru, hwnd, same()), windows) == hwnd,
{
    let belongs = |id: isize| ids_of(windows).contains(id);
    lemma_first_of_filter(promoted(window_mru, hwnd, same()), 0, belongs);
}

/// Switching back to an app restores the window on which it was committed.
pub proof fn committed_window_is_restored(
    app: AppModel,
    session: AppsSession,
    windows: Seq<WindowModel>,
)
    requires
        session.selected_window() matches Some(hwnd) && ids_of(windows).contains(hwnd),
    ensures
        Some(picked(committed(app, session).window_mru, windows)) == session.selected_window(),
{
    most_recent_window_is_picked(app.window_mru, session.selected_window()->0, windows);
}

/// When a session opens, the app in the foreground is shown with its window that
/// has the focus.
pub proof fn focused_window_is_picked(
    window_mru: Seq<isize>,
    apps: Seq<AppGroup>,
    foreground: isize,
    windows: Seq<WindowModel>,
)
    requires
        is_open(apps, foreground),
        ids_of(windows).contains(foreground),
    ensures
        picked(window_order(window_mru, apps, foreground), windows) == foreground,
{
    most_recent_window_is_picked(
        window_mru.filter(|id: isize| is_open(apps, id)),
        foreground,
        windows,
    );
}

/// The window that is picked is one of the app's own.
pub proof fn picked_window_belongs_to_the_app(window_mru: Seq<isize>, windows: Seq<WindowModel>)
    requires
        windows.len() > 0,
    ensures
        ids_of(windows).contains(picked(window_mru, windows)),
{
    let belongs = |id: isize| ids_of(windows).contains(id);
    let known = window_mru.filter(belongs);
    let is_shown = |w: WindowModel| !w.minimized;
    let shown = windows.filter(is_shown);
    assert(ids_of(windows)[0] == windows[0].id);
    if known.len() > 0 {
        assert(known.contains(known[0]));
        lemma_filter_contains(window_mru, belongs, known[0]);
    } else if shown.len() > 0 {
        assert(shown.contains(shown[0]));
        lemma_filter_contains(windows, is_shown, shown[0]);
        let i = choose|i: int| 0 <= i < windows.len() && windows[i] == shown[0];
        assert(ids_of(windows)[i] == shown[0].id);
    }
}

/// A window that is not minimized is preferred to the topmost one, where none was
/// used before.
pub proof fn unused_app_shows_a_window_that_is_not_minimized(
    window_mru: Seq<isize>,
    windows: Seq<WindowModel>,
    i: int,
)
    requires
        forall|j: int|
            0 <= j < window_mru.len() ==> !ids_of(windows).contains(#[trigger] window_mru[j]),
        0 <= i < windows.len(),
        !windows[i].minimized,
    ensures
        exists|j: int|
            0 <= j < windows.len() && !(#[trigger] windows[j]).minimized && windows[j].id == picked(
                window_mru,
                windows,
            ),
{
    let belongs = |id: isize| ids_of(windows).contains(id);
    lemma_filter_none(window_mru, belongs);
    let is_shown = |w: WindowModel| !w.minimized;
    let shown = windows.filter(is_shown);
    assert(windows.contains(windows[i]));
    lemma_filter_contains(windows, is_shown, windows[i]);
    assert(shown.contains(shown[0]));
    lemma_filter_contains(windows, is_shown, shown[0]);
    let j = choose|j: int| 0 <= j < windows.len() && windows[j] == shown[0];
    assert(!windows[j].minimized);
    if !windows[0].minimized {
        assert(windows[0].id == picked(window_mru, windows));
    } else {
        assert(windows[j].id == picked(window_mru, windows));
    }
}

/// The apps known before the foreground app was promoted.
spec fn known_apps(
    app_mru: Seq<Seq<char>>,
    apps: Seq<AppGroup>,
    foreground: isize,
) -> Seq<Seq<char>> {
    match owner(apps, foreground) {
        Some(group) => promoted(app_mru, group.key, same()),
        None => app_mru,
    }
}

/// Every open app is shown, and nothing else; where the MRU list has no
/// duplicates, none is shown twice.
pub proof fn every_open_app_is_shown_once(
    app_mru: Seq<Seq<char>>,
    apps: Seq<AppGroup>,
    foreground: isize,
    key: Seq<char>,
)
    ensures
        app_order(app_mru, apps, foreground).contains(key) <==> keys_of(apps).contains(key),
        app_mru.no_duplicates() ==> app_order(app_mru, apps, foreground).no_duplicates(),
{
    order_is_complete(known_apps(app_mru, apps, foreground), keys_of(apps), key);
    if app_mru.no_duplicates() && owner(apps, foreground) is Some {
        lemma_promoted_no_duplicates(app_mru, owner(apps, foreground)->0.key);
    }
}

/// Every app is shown with one of its own windows, which is open.
pub proof fn entries_show_open_windows(
    app: AppModel,
    apps: Seq<AppGroup>,
    foreground: isize,
    i: int,
)
    requires
        forall|j: int| 0 <= j < apps.len() ==> (#[trigger] apps[j]).windows.len() > 0,
        0 <= i < entries_of(arranged(app, apps, foreground), apps).len(),
    ensures
        ({
            let entry = entries_of(arranged(app, apps, foreground), apps)[i];
            &&& keys_of(apps).contains(entry.key)
            &&& owns(group_of(apps, entry.key), entry.window)
            &&& is_open(apps, entry.window)
        }),
{
    let after = arranged(app, apps, foreground);
    let entry = entries_of(after, apps)[i];
    let has_key = |a: AppGroup| a.key == entry.key;
    let hits = apps.filter(has_key);
    assert(after.app_mru.contains(after.app_mru[i]));
    every_open_app_is_shown_once(app.app_mru, apps, foreground, entry.key);
    let k = choose|k: int| 0 <= k < keys_of(apps).len() && keys_of(apps)[k] == entry.key;
    assert(apps.contains(apps[k]) && has_key(apps[k]));
    lemma_filter_contains(apps, has_key, apps[k]);
    assert(hits.contains(hits[0]));
    lemma_filter_contains(apps, has_key, hits[0]);
    let j = choose|j: int| 0 <= j < apps.len() && apps[j] == hits[0];
    picked_window_belongs_to_the_app(after.window_mru, apps[j].windows);
    assert(owns(apps[j], entry.window));
    lemma_is_open(apps, entry.window);
}

/// The app in the foreground is shown first, and right behind it the app that was
/// used most recently among the others.
pub proof fn previous_app_comes_second(
    app_mru: Seq<Seq<char>>,
    apps: Seq<AppGroup>,
    foreground: isize,
)
    requires
        is_open(apps, foreground),
    ensures
        ({
            let order = app_order(app_mru, apps, foreground);
            let key = owner(apps, foreground)->0.key;
            let others = app_mru.filter(
                |k: Seq<char>| k != key && keys_of(apps).contains(k),
            );
            &&& order.len() > 0
            &&& order[0] == key
            &&& others.len() > 0 ==> order.len() > 1 && order[1] == others.first()
        }),
{
    let key = owner(apps, foreground)->0.key;
    let keys = keys_of(apps);
    let known = promoted(app_mru, key, same());
    let is_present = |k: Seq<char>| occurs(keys, k, same());
    let is_other = |k: Seq<char>| !same::<Seq<char>>()(k, key);
    let wanted = |k: Seq<char>| k != key && keys.contains(k);
    let kept = retained(known, keys, same());
    lemma_owner_is_listed(apps, foreground);
    lemma_occurs_same(keys, key);
    Seq::filter_distributes_over_add(seq![key], app_mru.filter(is_other), is_present);
    lemma_first_of_filter(seq![key], 0, is_present);
    assert(seq![key].filter(is_present) =~= seq![key]) by {
        seq![key].lemma_filter_len(is_present);
    }
    lemma_filter_twice(app_mru, is_other, is_present);
    let both = |k: Seq<char>| is_other(k) && is_present(k);
    assert forall|j: int| 0 <= j < app_mru.len() implies both(#[trigger] app_mru[j]) == wanted(
        app_mru[j],
    ) by {
        lemma_occurs_same(keys, app_mru[j]);
    }
    lemma_filter_congruence(app_mru, both, wanted);
    assert(kept == seq![key] + app_mru.filter(wanted));
    order_keeps_known_items_first(known, keys, same());
    let order = app_order(app_mru, apps, foreground);
    assert(order.take(kept.len() as int)[0] == key);
    if app_mru.filter(wanted).len() > 0 {
        assert(order.take(kept.len() as int)[1] == app_mru.filter(wanted)[0]);
    }
}

proof fn lemma_owner_is_listed(apps: Seq<AppGroup>, id: isize)
    requires
        is_open(apps, id),
    ensures
        keys_of(apps).contains(owner(apps, id)->0.key),
{
    let is_owner = |a: AppGroup| owns(a, id);
    let owners = apps.filter(is_owner);
    assert(owners.contains(owners[0]));
    lemma_filter_contains(apps, is_owner, owners[0]);
    let i = choose|i: int| 0 <= i < apps.len() && apps[i] == owners[0];
    assert(keys_of(apps)[i] == owners[0].key);
}

/// When a session ends, exactly the windows that were restored for a preview and
/// that the user did not settle on are minimized again, each once.
pub proof fn previews_are_undone(restored: Seq<isize>, keep: Option<isize>, id: isize)
    ensures
        undone(restored, keep).contains(id) <==> restored.contains(id) && keep != Some(id),
        restored.no_duplicates() ==> undone(restored, keep).no_duplicates(),
{
    let leaves = |x: isize| keep != Some(x);
    lemma_filter_contains(restored, leaves, id);
    if restored.no_duplicates() {
        lemma_filter_no_duplicates(restored, leaves);
    }
}

proof fn lemma_previewed(app: AppModel, opening: bool, hops: Seq<Hop>)
    requires
        app.apps is Some,
        app.restored_windows == Seq::<isize>::empty(),
    ensures
        ({
            let after = after_hops(activated(app, opening), hops);
            &&& after.apps is Some
            &&& after.apps == after_hops(app, hops).apps
            &&& after.restored_windows == distinct(previewed(app, opening, hops))
        }),
    decreases hops.len(),
{
    if hops.len() > 0 {
        lemma_previewed(app, opening, hops.drop_last());
        let before = previewed(app, opening, hops.drop_last());
        if hops.last().restored {
            assert(previewed(app, opening, hops).drop_last() =~= before);
        }
    } else if opening {
        let first = seq![app.apps->0.selected_window()->0];
        assert(first.drop_last() =~= Seq::<isize>::empty());
        assert(distinct(first.drop_last()) =~= Seq::<isize>::empty());
    }
}

/// Over a whole session that found no window restored: the windows to minimize at its
/// end are those that were restored on the way, other than the one that is kept, each
/// once and in the order in which they were first restored. However the session ended,
/// there is nothing left to undo.
pub proof fn session_puts_its_previews_back(
    app: AppModel,
    opening: bool,
    hops: Seq<Hop>,
    keep: Option<isize>,
    id: isize,
    ended: AppsSession,
    later: Option<isize>,
)
    requires
        app.apps is Some,
        app.restored_windows == Seq::<isize>::empty(),
    ensures
        ({
            let after = after_hops(activated(app, opening), hops);
            let minimize = undone(after.restored_windows, keep);
            &&& minimize == distinct(previewed(app, opening, hops)).filter(
                |w: isize| keep != Some(w),
            )
            &&& minimize.contains(id) <==> previewed(app, opening, hops).contains(id) && keep
                != Some(id)
            &&& minimize.no_duplicates()
            &&& undone(committed(after, ended).restored_windows, later) == Seq::<isize>::empty()
            &&& undone(cancelled(after).restored_windows, later) == Seq::<isize>::empty()
        }),
{
    let restored = previewed(app, opening, hops);
    lemma_previewed(app, opening, hops);
    lemma_distinct(restored, id);
    previews_are_undone(distinct(restored), keep, id);
    lemma_filter_none(Seq::<isize>::empty(), |w: isize| later != Some(w));
}

/// When the apps are arranged, every cached icon is either kept, because its app
/// is open, or destroyed, because it is not.
pub proof fn icons_are_kept_or_destroyed(
    icons: Seq<(Seq<char>, isize)>,
    apps: Seq<AppGroup>,
    cached: (Seq<char>, isize),
)
    ensures
        kept_icons(icons, apps).contains(cached) <==> icons.contains(cached) && keys_of(
            apps,
        ).contains(cached.0),
        icons.contains(cached) && !keys_of(apps).contains(cached.0) ==> stale_icons(
            icons,
            apps,
        ).contains(cached.1),
        kept_icons(icons, apps).len() + stale_icons(icons, apps).len() == icons.len(),
{
    let keep = |p: (Seq<char>, isize)| keys_of(apps).contains(p.0);
    let toss = |p: (Seq<char>, isize)| !keys_of(apps).contains(p.0);
    let handle = |p: (Seq<char>, isize)| p.1;
    lemma_filter_contains(icons, keep, cached);
    lemma_filter_contains(icons, toss, cached);
    if icons.contains(cached) && !keys_of(apps).contains(cached.0) {
        let tossed = icons.filter(toss);
        let i = choose|i: int| 0 <= i < tossed.len() && tossed[i] == cached;
        assert(tossed.map_values(handle)[i] == cached.1);
    }
    lemma_filter_partition(icons, keep, toss);
}

proof fn lemma_filter_partition<T>(s: Seq<T>, p: spec_fn(T) -> bool, q: spec_fn(T) -> bool)
    requires
        forall|i: int| 0 <= i < s.len() ==> p(#[trigger] s[i]) == !q(s[i]),
    ensures
        s.filter(p).len() + s.filter(q).len() == s.len(),
    decreases s.len(),
{
    reveal(Seq::filter);
    if s.len() > 0 {
        let rest = s.drop_last();
        assert forall|i: int| 0 <= i < rest.len() implies p(#[trigger] rest[i]) == !q(rest[i]) by {
            assert(rest[i] == s[i]);
        }
        lemma_filter_partition(rest, p, q);
        assert(p(s[s.len() - 1]) == !q(s[s.len() - 1]));
    }
}

/// Every icon that a session shows is cached for its app, so that the next session
/// need not load it again, and closing the app destroys it.
pub proof fn shown_icons_are_cached(
    app: AppModel,
    entries: Seq<EntryModel>,
    loaded: Seq<isize>,
    i: int,
)
    requires
        fits(app, entries),
        0 <= i < entries.len(),
    ensures
        cached_icon(app.icons + new_icons(entries, loaded), entries[i].key) == Some(
            icon_at(entries, loaded, i),
        ),
{
    let key = entries[i].key;
    let wanted = |p: (Seq<char>, isize)| is_icon_of(p, key);
    let added = new_icons(entries, loaded);
    Seq::filter_distributes_over_add(app.icons, added, wanted);
    let old_hits = app.icons.filter(wanted);
    assert(entries[i].icon == cached_icon(app.icons, key));
    if entries[i].icon is Some {
        assert((old_hits + added.filter(wanted))[0] == old_hits[0]);
    } else {
        assert(old_hits =~= Seq::empty());
        let missing = |e: EntryModel| e.icon is None;
        let without = without_icon(entries);
        let j = without_icon(entries.take(i)).len() as int;
        lemma_filter_take(entries, i, missing);
        assert(entries =~= entries.take(i + 1) + entries.skip(i + 1));
        Seq::filter_distributes_over_add(entries.take(i + 1), entries.skip(i + 1), missing);
        assert(without[j] == entries[i]);
        assert forall|k: int| 0 <= k < j implies !wanted(#[trigger] added[k]) by {
            assert(without[k] == without_icon(entries.take(i))[k]);
            assert(without_icon(entries.take(i)).contains(without[k]));
            lemma_filter_contains(entries.take(i), missing, without[k]);
            let m = choose|m: int| 0 <= m < entries.take(i).len() && entries.take(i)[m]
                == without[k];
            let keys = entries.map_values(|e: EntryModel| e.key);
            assert(keys[m] != keys[i]);
        }
        lemma_first_of_filter(added, j, wanted);
        assert((old_hits + added.filter(wanted))[0] == added.filter(wanted)[0]);
    }
}

/// Switching away from an app and back restores the window that a switch between
/// its windows went to.
pub proof fn switched_window_is_restored(
    session: WindowsSession,
    group: AppGroup,
    reverse: bool,
    window_mru: Seq<isize>,
)
    requires
        group.windows.len() >= 2,
        has_target(session, group, reverse),
    ensures
        ({
            let hwnd = target(session, group, reverse);
            picked(promoted(window_mru, hwnd, same()), group.windows) == hwnd
        }),
{
    let live = ids_of(group.windows);
    let order = next_order(session, group);
    let hwnd = target(session, group, reverse);
    if continues(session, group) {
        cycling_order_is_complete(recalled(session, group)->0.windows, live);
    }
    if recalled(session, group) is Some {
        live.index_of_first_ensures(recalled(session, group)->0.id);
    }
    assert(order.contains(hwnd));
    most_recent_window_is_picked(window_mru, hwnd, group.windows);
}

/// Switching back and forth: once another app is committed and has the focus, the
/// app that was in front before it is right behind it, where the next session opens.
pub proof fn committed_app_is_followed_by_the_one_before(
    app: AppModel,
    session: AppsSession,
    apps: Seq<AppGroup>,
    foreground: isize,
    previous: Seq<char>,
)
    requires
        app.app_mru.len() > 0,
        app.app_mru[0] == previous,
        session.selected_key() matches Some(key) && key != previous,
        owner(apps, foreground) matches Some(group) && session.selected_key() == Some(group.key),
        keys_of(apps).contains(previous),
    ensures
        ({
            let order = app_order(committed(app, session).app_mru, apps, foreground);
            &&& order.len() > 1
            &&& Some(order[0]) == session.selected_key()
            &&& order[first_index(order.len() as int, false)] == previous
        }),
{
    let key = session.selected_key()->0;
    let mru = committed(app, session).app_mru;
    let is_other = |k: Seq<char>| !same::<Seq<char>>()(k, key);
    let wanted = |k: Seq<char>| k != key && keys_of(apps).contains(k);
    lemma_first_of_filter(app.app_mru, 0, is_other);
    assert(mru[1] == app.app_mru.filter(is_other)[0]);
    lemma_first_of_filter(mru, 1, wanted);
    previous_app_comes_second(mru, apps, foreground);
}

/// What a hotkey posts is what the window takes it for.
pub proof fn hotkey_messages_are_understood(
    hotkey: HotkeyModel,
    scan_code: u32,
    shift: bool,
    taskbar_created: u32,
)
    ensures
        ({
            let post = action_post(hotkey, scan_code, shift);
            decoded(post.msg, 0, post.lparam, taskbar_created) == if hotkey.id
                == SWITCH_WINDOWS_HOTKEY_ID {
                Message::SwitchWindows { reverse: shift }
            } else if scan_code == hotkey.code {
                Message::SwitchApps { reverse: shift }
            } else if scan_code == SCANCODE_ESCAPE {
                Message::SwitchAppsCancel
            } else {
                Message::SwitchApps {
                    reverse: scan_code == SCANCODE_UP || scan_code == SCANCODE_LEFT,
                }
            }
        }),
        done_post(hotkey.id) matches Some(post) ==> decoded(
            post.msg,
            0,
            post.lparam,
            taskbar_created,
        ) == if hotkey.id == SWITCH_APPS_HOTKEY_ID {
            Message::SwitchAppsDone
        } else {
            Message::SwitchWindowsDone
        },
{
}

} // verus!
