//! A session of switching between apps: what it shows and which app it is on.
use crate::desktop::{ids_of, WindowModel};
use crate::seqs::{
    lemma_filter_none, lemma_filter_positions, lemma_filter_take, lemma_first_of_filter, marks,
};
use crate::text::{decimal, decimal_reads_back, decimal_text, decimal_value, texts};
use vstd::prelude::*;

verus! {

/// The apps that the overlay shows.
#[derive(Debug)]
pub struct SwitchAppsState {
    /// Icon and window of each app.
    pub apps: Vec<(isize, isize)>,
    /// App key parallel to `apps`, used to maintain the MRU order.
    pub keys: Vec<String>,
    /// Window title parallel to `apps`, spoken when announcements are enabled.
    pub names: Vec<String>,
    pub index: usize,
}

/// What a `SwitchAppsState` says.
pub struct AppsSession {
    pub apps: Seq<(isize, isize)>,
    pub keys: Seq<Seq<char>>,
    pub names: Seq<Seq<char>>,
    pub index: usize,
}

impl View for SwitchAppsState {
    type V = AppsSession;

    open spec fn view(&self) -> AppsSession {
        AppsSession {
            apps: self.apps@,
            keys: texts(self.keys@),
            names: texts(self.names@),
            index: self.index,
        }
    }
}

impl AppsSession {
    /// Something is shown, the lists are parallel, and the selection is among them.
    pub open spec fn wf(self) -> bool {
        &&& self.keys.len() == self.apps.len()
        &&& self.names.len() == self.apps.len()
        &&& self.index < self.apps.len()
    }

    /// The window of the selected app, if the selection is on one.
    pub open spec fn selected_window(self) -> Option<isize> {
        if self.index < self.apps.len() {
            Some(self.apps[self.index as int].1)
        } else {
            None
        }
    }

    /// The key of the selected app, if the selection is on one.
    pub open spec fn selected_key(self) -> Option<Seq<char>> {
        if self.index < self.keys.len() {
            Some(self.keys[self.index as int])
        } else {
            None
        }
    }
}

/// The characters of an optional text.
pub open spec fn text_of(text: Option<String>) -> Option<Seq<char>> {
    match text {
        Some(t) => Some(t@),
        None => None,
    }
}

/// What is spoken for the selection: its name, its position and how many there are.
pub open spec fn announcement(session: AppsSession, enabled: bool) -> Option<Seq<char>> {
    if enabled && session.index < session.names.len() {
        Some(
            session.names[session.index as int] + ", "@ + decimal((session.index + 1) as nat)
                + " of "@ + decimal(session.apps.len()),
        )
    } else {
        None
    }
}

impl SwitchAppsState {
    /// The text that a screen reader should speak for the current selection, or
    /// `None` when announcements are turned off.
    pub fn announcement_for(&self, enabled: bool) -> (text: Option<String>)
        ensures
            text_of(text) == announcement(self@, enabled),
    {
        if !enabled || self.index >= self.names.len() {
            return None;
        }
        let mut text = self.names[self.index].clone();
        text.append(", ");
        text.append(decimal_text(self.index + 1).as_str());
        text.append(" of ");
        text.append(decimal_text(self.apps.len()).as_str());
        Some(text)
    }

    /// The window of the selected app, if the selection is on one.
    pub fn selected_window(&self) -> (hwnd: Option<isize>)
        ensures
            hwnd == self@.selected_window(),
    {
        if self.index < self.apps.len() {
            Some(self.apps[self.index].1)
        } else {
            None
        }
    }
}

/// The window of an app to go to: the one that was used most recently, else the
/// topmost one, unless that is minimized and another one is not.
pub open spec fn picked(window_mru: Seq<isize>, windows: Seq<WindowModel>) -> isize {
    let known = window_mru.filter(|id: isize| ids_of(windows).contains(id));
    let shown = windows.filter(|w: WindowModel| !w.minimized);
    if known.len() > 0 {
        known.first()
    } else if windows[0].minimized && shown.len() > 0 {
        shown.first().id
    } else {
        windows[0].id
    }
}

/// An app that is about to be shown.
pub struct AppEntry {
    pub key: String,
    /// The window to go to.
    pub window: isize,
    /// The window's title.
    pub name: String,
    /// The app's icon, if it is known already.
    pub icon: Option<isize>,
}

/// What an `AppEntry` says.
pub struct EntryModel {
    pub key: Seq<char>,
    pub window: isize,
    pub name: Seq<char>,
    pub icon: Option<isize>,
}

impl View for AppEntry {
    type V = EntryModel;

    open spec fn view(&self) -> EntryModel {
        EntryModel { key: self.key@, window: self.window, name: self.name@, icon: self.icon }
    }
}

/// The entries of a list.
pub open spec fn entry_models(entries: Seq<AppEntry>) -> Seq<EntryModel> {
    entries.map_values(|e: AppEntry| e@)
}

/// The entries whose icons are still to be loaded, in order.
pub open spec fn without_icon(entries: Seq<EntryModel>) -> Seq<EntryModel> {
    entries.filter(|e: EntryModel| e.icon is None)
}

/// The icon of the entry at `i`: the known one, or else the one that was loaded
/// for it. `loaded` holds the icons of the entries without one, in order.
pub open spec fn icon_at(entries: Seq<EntryModel>, loaded: Seq<isize>, i: int) -> isize {
    match entries[i].icon {
        Some(icon) => icon,
        None => loaded[without_icon(entries.take(i)).len() as int],
    }
}

/// The selection with which a session of `len` apps opens: the app after the
/// current one, or the last one when going backwards.
pub open spec fn first_index(len: int, reverse: bool) -> int {
    if len == 1 {
        0
    } else if reverse {
        len - 1
    } else {
        1
    }
}

/// The session that shows the entries.
pub open spec fn opened(
    entries: Seq<EntryModel>,
    loaded: Seq<isize>,
    reverse: bool,
) -> AppsSession {
    AppsSession {
        apps: Seq::new(entries.len(), |i: int| (icon_at(entries, loaded, i), entries[i].window)),
        keys: entries.map_values(|e: EntryModel| e.key),
        names: entries.map_values(|e: EntryModel| e.name),
        index: first_index(entries.len() as int, reverse) as usize,
    }
}

/// What is spoken is the selected app's name, a comma, its position counted from one, and
/// the number of apps. Nothing is spoken when announcements are off.
pub proof fn announcement_tells_name_and_place(session: AppsSession) -> (numbers: (
    Seq<char>,
    Seq<char>,
))
    requires
        session.wf(),
    ensures
        decimal_value(numbers.0) == session.index + 1,
        decimal_value(numbers.1) == session.apps.len(),
        announcement(session, true) == Some(
            session.names[session.index as int] + seq![',', ' '] + numbers.0 + seq![
                ' ',
                'o',
                'f',
                ' ',
            ] + numbers.1,
        ),
        announcement(session, false) is None,
{
    reveal_strlit(", ");
    reveal_strlit(" of ");
    decimal_reads_back((session.index + 1) as nat);
    decimal_reads_back(session.apps.len());
    assert(", "@ =~= seq![',', ' ']);
    assert(" of "@ =~= seq![' ', 'o', 'f', ' ']);
    (decimal((session.index + 1) as nat), decimal(session.apps.len()))
}

/// The window picked for an app is the one used most recently: wherever it stands in the
/// MRU list, it is the earliest entry that is one of the app's windows.
pub proof fn earliest_entry_of_the_app_is_picked(
    window_mru: Seq<isize>,
    windows: Seq<WindowModel>,
    m: int,
    w: int,
)
    requires
        0 <= m < window_mru.len(),
        0 <= w < windows.len(),
        windows[w].id == window_mru[m],
        forall|k: int, v: int|
            0 <= k < m && 0 <= v < windows.len() ==> (#[trigger] windows[v]).id
                != #[trigger] window_mru[k],
    ensures
        picked(window_mru, windows) == window_mru[m],
{
    let belongs = |id: isize| ids_of(windows).contains(id);
    assert(ids_of(windows)[w] == window_mru[m]);
    assert forall|k: int| 0 <= k < m implies !belongs(#[trigger] window_mru[k]) by {
        if belongs(window_mru[k]) {
            let v = choose|v: int|
                0 <= v < ids_of(windows).len() && ids_of(windows)[v] == window_mru[k];
            assert(windows[v].id == window_mru[k]);
        }
    }
    lemma_first_of_filter(window_mru, m, belongs);
}

/// Where none of the app's windows was used, the first one that is not minimized is
/// picked, or the topmost one where all of them are.
pub proof fn without_history_the_topmost_shown_window_is_picked(
    window_mru: Seq<isize>,
    windows: Seq<WindowModel>,
    w: int,
)
    requires
        0 <= w < windows.len(),
        forall|k: int, v: int|
            0 <= k < window_mru.len() && 0 <= v < windows.len() ==> (#[trigger] windows[v]).id
                != #[trigger] window_mru[k],
        forall|v: int| 0 <= v < w ==> (#[trigger] windows[v]).minimized,
    ensures
        !windows[w].minimized ==> picked(window_mru, windows) == windows[w].id,
        windows[w].minimized && w == windows.len() - 1 ==> picked(window_mru, windows)
            == windows[0].id,
{
    let belongs = |id: isize| ids_of(windows).contains(id);
    let is_shown = |x: WindowModel| !x.minimized;
    assert forall|k: int| 0 <= k < window_mru.len() implies !belongs(#[trigger] window_mru[k]) by {
        if belongs(window_mru[k]) {
            let v = choose|v: int|
                0 <= v < ids_of(windows).len() && ids_of(windows)[v] == window_mru[k];
            assert(windows[v].id == window_mru[k]);
        }
    }
    lemma_filter_none(window_mru, belongs);
    if !windows[w].minimized {
        assert forall|v: int| 0 <= v < w implies !is_shown(#[trigger] windows[v]) by {
            assert(windows[v].minimized);
        }
        lemma_first_of_filter(windows, w, is_shown);
    } else if w == windows.len() - 1 {
        assert forall|v: int| 0 <= v < windows.len() implies !is_shown(#[trigger] windows[v]) by {
            assert(windows[v].minimized);
        }
        lemma_filter_none(windows, is_shown);
    }
}

/// The selected window and key are those at the selection, if it is on an app.
pub proof fn selection_is_at_the_index(session: AppsSession)
    ensures
        session.index < session.apps.len() ==> session.selected_window() == Some(
            session.apps[session.index as int].1,
        ),
        session.index >= session.apps.len() ==> session.selected_window() is None,
        session.index < session.keys.len() ==> session.selected_key() == Some(
            session.keys[session.index as int],
        ),
        session.index >= session.keys.len() ==> session.selected_key() is None,
{
}

/// A session shows the entries in order, each with its window, key and title, and opens
/// on the one behind the first, or on the last when going backwards.
pub proof fn session_shows_the_entries(
    entries: Seq<EntryModel>,
    loaded: Seq<isize>,
    reverse: bool,
    i: int,
)
    requires
        0 <= i < entries.len() <= usize::MAX,
    ensures
        ({
            let session = opened(entries, loaded, reverse);
            &&& session.apps.len() == entries.len()
            &&& session.keys.len() == entries.len()
            &&& session.names.len() == entries.len()
            &&& session.apps[i].1 == entries[i].window
            &&& session.keys[i] == entries[i].key
            &&& session.names[i] == entries[i].name
            &&& entries[i].icon matches Some(icon) ==> session.apps[i].0 == icon
            &&& entries.len() == 1 ==> session.index == 0
            &&& entries.len() > 1 && reverse ==> session.index == entries.len() - 1
            &&& entries.len() > 1 && !reverse ==> session.index == 1
        }),
{
}

/// The icons that were loaded go to the entries without one, in order: `at` lists where
/// those stand.
pub proof fn loaded_icons_go_where_they_are_missing(
    entries: Seq<EntryModel>,
    loaded: Seq<isize>,
    reverse: bool,
) -> (at: Seq<int>)
    ensures
        marks(at, entries, |e: EntryModel| e.icon is None),
        forall|k: int|
            0 <= k < at.len() ==> opened(entries, loaded, reverse).apps[#[trigger] at[k]].0
                == loaded[k],
{
    let missing = |e: EntryModel| e.icon is None;
    let at = lemma_filter_positions(entries, missing);
    assert forall|k: int| 0 <= k < at.len() implies opened(
        entries,
        loaded,
        reverse,
    ).apps[#[trigger] at[k]].0 == loaded[k] by {
        lemma_missing_before(entries, at, k);
    }
    at
}

/// As many entries before the `k`-th one without an icon have none.
proof fn lemma_missing_before(entries: Seq<EntryModel>, at: Seq<int>, k: int)
    requires
        marks(at, entries, |e: EntryModel| e.icon is None),
        0 <= k < at.len(),
    ensures
        without_icon(entries.take(at[k])).len() == k,
    decreases k,
{
    let missing = |e: EntryModel| e.icon is None;
    let from = if k == 0 {
        0
    } else {
        at[k - 1] + 1
    };
    if k > 0 {
        assert(at[k - 1] < at[k]);
        assert(missing(entries[at[k - 1]]));
        lemma_missing_before(entries, at, k - 1);
        lemma_filter_take(entries, at[k - 1], missing);
    } else {
        assert(entries.take(0) =~= Seq::<EntryModel>::empty());
        reveal(Seq::filter);
    }
    let between = entries.subrange(from, at[k]);
    assert forall|j: int| 0 <= j < between.len() implies !missing(#[trigger] between[j]) by {
        if missing(entries[from + j]) {
            let l = choose|l: int| 0 <= l < at.len() && at[l] == from + j;
            if l < k - 1 {
                assert(at[l] < at[k - 1]);
            } else if l > k {
                assert(at[k] < at[l]);
            }
        }
    }
    lemma_filter_none(between, missing);
    assert(entries.take(at[k]) =~= entries.take(from) + between);
    Seq::filter_distributes_over_add(entries.take(from), between, missing);
}

/// A session and its entries are modelled field by field, and the entries in order.
pub proof fn sessions_are_modelled_field_by_field(
    state: SwitchAppsState,
    entries: Seq<AppEntry>,
    i: int,
)
    ensures
        state@.apps == state.apps@,
        state@.keys == texts(state.keys@),
        state@.names == texts(state.names@),
        state@.index == state.index,
        entry_models(entries).len() == entries.len(),
        0 <= i < entries.len() ==> entry_models(entries)[i] == (EntryModel {
            key: entries[i].key@,
            window: entries[i].window,
            name: entries[i].name@,
            icon: entries[i].icon,
        }),
{
}

} // verus!
