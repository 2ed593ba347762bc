//! The switcher's state, and how it answers to what happens on the desktop.
//!
//! Whatever touches a window, an icon or a screen reader is left to the caller:
//! the functions here take what the desktop shows as plain values, and return
//! what is to be done to it.
use crate::config::{same_settings, Config, ConfigModel};
use crate::desktop::{
    find_group, find_owner, find_title, group_of, groups, ids_of, is_open, keys_of, list_all_ids,
    list_ids, list_keys, owner, title_of, window_models, AppGroup, AppWindows, Window, WindowModel,
};
use crate::id_set::with_inserted;
use crate::message::Message;
use crate::mru::{
    all_cloned, clones_compare_alike, contains, decides_eq, lemma_occurs_same,
    lemma_promoted_no_duplicates, most_recent_index, occurs, order_by_mru, order_is_complete,
    ordered, promote, promoted, retain_present, same,
};
use crate::seqs::{
    lemma_filter_congruence, lemma_filter_contains, lemma_filter_no_duplicates, lemma_filter_none,
    lemma_filter_take, lemma_first_of_filter, lemma_push_contains,
};
use crate::switch_apps::{
    announcement, entry_models, icon_at, opened, picked, text_of, without_icon, AppEntry,
    AppsSession, EntryModel, SwitchAppsState,
};
use crate::switch_windows::{
    advanced, has_target, stepped, target, SwitchWindowsState, WindowsSession,
};
use crate::text::{
    copy_texts, lemma_occurs_text, lemma_same_text_decides, lemma_texts_ordered,
    lemma_texts_promoted, same_text, texts,
};
use crate::uia::{no_selection, ListModel, ListProvider, Rect, Selection, SelectionModel};
use vstd::prelude::*;

verus! {

/// An icon that was loaded for an app.
pub struct CachedIcon {
    pub key: String,
    pub icon: isize,
}

/// The icons of a list, by app.
pub open spec fn icon_models(icons: Seq<CachedIcon>) -> Seq<(Seq<char>, isize)> {
    icons.map_values(|c: CachedIcon| (c.key@, c.icon))
}

/// The switcher.
pub struct App {
    pub config: Config,
    pub is_admin: bool,
    /// Whether there is a tray icon.
    pub trayicon: bool,
    pub switch_windows_state: SwitchWindowsState,
    pub switch_apps_state: Option<SwitchAppsState>,
    /// Most-recently-used order of app keys (front = most recent). Kept
    /// independent of the order in which the windows lie on top of each other,
    /// which activating candidates reshuffles.
    pub app_mru: Vec<String>,
    /// Most-recently-used order of window handles (front = most recent). Like
    /// `app_mru`, it is updated on genuine focus and on commits, never on the hops
    /// in between.
    pub window_mru: Vec<isize>,
    /// Windows that were minimized and were restored only to preview them.
    pub restored_windows: Vec<isize>,
    pub cached_icons: Vec<CachedIcon>,
    /// The window that was in the foreground when the session was opened.
    pub original_foreground: Option<isize>,
}

/// What an `App` says.
pub struct AppModel {
    pub config: ConfigModel,
    pub is_admin: bool,
    pub trayicon: bool,
    pub windows: WindowsSession,
    pub apps: Option<AppsSession>,
    pub app_mru: Seq<Seq<char>>,
    pub window_mru: Seq<isize>,
    pub restored_windows: Seq<isize>,
    pub icons: Seq<(Seq<char>, isize)>,
    pub original_foreground: Option<isize>,
}

impl View for App {
    type V = AppModel;

    open spec fn view(&self) -> AppModel {
        AppModel {
            config: self.config@,
            is_admin: self.is_admin,
            trayicon: self.trayicon,
            windows: self.switch_windows_state@,
            apps: match self.switch_apps_state {
                Some(state) => Some(state@),
                None => None,
            },
            app_mru: texts(self.app_mru@),
            window_mru: self.window_mru@,
            restored_windows: self.restored_windows@,
            icons: icon_models(self.cached_icons@),
            original_foreground: self.original_foreground,
        }
    }
}

/// The apps that have a cached icon.
pub open spec fn icon_keys(icons: Seq<(Seq<char>, isize)>) -> Seq<Seq<char>> {
    icons.map_values(|p: (Seq<char>, isize)| p.0)
}

impl AppModel {
    /// Apart from a session between apps, all is well-formed: nothing is listed twice,
    /// and neither is the cycle through windows off its list.
    pub open spec fn idle_wf(self) -> bool {
        &&& self.windows.wf()
        &&& self.app_mru.no_duplicates()
        &&& self.window_mru.no_duplicates()
        &&& self.restored_windows.no_duplicates()
        &&& icon_keys(self.icons).no_duplicates()
    }

    /// All is well-formed.
    pub open spec fn wf(self) -> bool {
        &&& self.idle_wf()
        &&& self.apps matches Some(session) ==> session.wf()
    }
}

/// The switcher when the program starts.
pub open spec fn initial(config: ConfigModel, is_admin: bool) -> AppModel {
    AppModel {
        config,
        is_admin,
        trayicon: config.trayicon,
        windows: WindowsSession { cache: None, modifier_released: true },
        apps: None,
        app_mru: Seq::empty(),
        window_mru: Seq::empty(),
        restored_windows: Seq::empty(),
        icons: Seq::empty(),
        original_foreground: None,
    }
}

/// Which windows to list.
#[derive(Clone, Copy, Debug, PartialEq, Eq, Structural)]
pub struct ListRequest {
    /// Leave out minimized windows.
    pub ignore_minimal: bool,
    pub only_current_desktop: bool,
    pub is_admin: bool,
}

/// The app whose windows are switched: the one that `hwnd` belongs to, if it has
/// another window.
pub open spec fn switched_app(apps: Seq<AppGroup>, hwnd: isize) -> Option<AppGroup> {
    match owner(apps, hwnd) {
        Some(app) => if app.windows.len() == 1 {
            None
        } else {
            Some(app)
        },
        None => None,
    }
}

/// The switch between windows has a window to go to, or nothing to do.
pub open spec fn can_switch(
    app: AppModel,
    apps: Seq<AppGroup>,
    hwnd: isize,
    reverse: bool,
) -> bool {
    switched_app(apps, hwnd) matches Some(group) ==> has_target(app.windows, group, reverse)
}

impl App {
    /// The switcher as the program starts it.
    pub fn start(config: &Config, is_admin: bool) -> (app: Self)
        ensures
            app@ == initial(config@, is_admin),
            app@.wf(),
    {
        let app = App {
            config: config.clone(),
            is_admin,
            trayicon: config.trayicon,
            switch_windows_state: SwitchWindowsState::new(),
            switch_apps_state: None,
            app_mru: Vec::new(),
            window_mru: Vec::new(),
            restored_windows: Vec::new(),
            cached_icons: Vec::new(),
            original_foreground: None,
        };
        assert(app@.app_mru =~= Seq::<Seq<char>>::empty());
        assert(app@.icons =~= Seq::<(Seq<char>, isize)>::empty());
        app
    }

    /// Which windows to list for a switch between windows.
    pub fn switch_windows_list(&self) -> (request: ListRequest)
        ensures
            request.ignore_minimal == self@.config.switch_windows_ignore_minimal,
            request.only_current_desktop == self@.config.switch_windows_only_current_desktop,
            request.is_admin == self@.is_admin,
    {
        ListRequest {
            ignore_minimal: self.config.switch_windows_ignore_minimal,
            only_current_desktop: self.config.switch_windows_only_current_desktop,
            is_admin: self.is_admin,
        }
    }

    /// The position of the app whose windows are switched.
    fn find_switched_app(windows: &Vec<AppWindows>, hwnd: isize) -> (found: Option<usize>)
        ensures
            match found {
                Some(i) => i < windows@.len() && windows@[i as int]@.windows.len() >= 2
                    && switched_app(groups(windows@), hwnd) == Some(windows@[i as int]@),
                None => switched_app(groups(windows@), hwnd) is None,
            },
    {
        match find_owner(windows, hwnd) {
            Some(i) => {
                if windows[i].windows.len() == 1 {
                    None
                } else {
                    Some(i)
                }
            },
            None => None,
        }
    }

    /// Whether `switch_windows` can be called.
    pub fn can_switch_windows(
        &self,
        windows: &Vec<AppWindows>,
        hwnd: isize,
        reverse: bool,
    ) -> (can: bool)
        ensures
            can == can_switch(self@, groups(windows@), hwnd, reverse),
    {
        match Self::find_switched_app(windows, hwnd) {
            Some(i) => self.switch_windows_state.can_advance(&windows[i], reverse),
            None => true,
        }
    }

    /// Goes to the next window of the app that `hwnd` belongs to, or to the one
    /// before it, and returns the window to activate. There is none where the app
    /// is not listed or has no other window.
    ///
    /// The window counts as the app's most recent one at once, so that switching
    /// away and back restores it.
    pub fn switch_windows(
        &mut self,
        windows: &Vec<AppWindows>,
        hwnd: isize,
        reverse: bool,
    ) -> (activated: Option<isize>)
        requires
            old(self)@.wf(),
            can_switch(old(self)@, groups(windows@), hwnd, reverse),
        ensures
            final(self)@.wf(),
            match switched_app(groups(windows@), hwnd) {
                Some(group) => {
                    let next = target(old(self)@.windows, group, reverse);
                    &&& activated == Some(next)
                    &&& final(self)@ == (AppModel {
                        windows: advanced(old(self)@.windows, group, reverse),
                        window_mru: promoted(old(self)@.window_mru, next, same()),
                        ..old(self)@
                    })
                },
                None => activated is None && final(self)@ == old(self)@,
            },
    {
        match Self::find_switched_app(windows, hwnd) {
            Some(i) => {
                let next = self.switch_windows_state.advance(&windows[i], reverse);
                proof {
                    lemma_promoted_no_duplicates(self.window_mru@, next);
                    assert(decides_eq(same::<isize>()));
                }
                promote(&mut self.window_mru, next);
                Some(next)
            },
            None => None,
        }
    }
}

/// What is to be done for a step of a session between apps.
pub enum SwitchStep {
    /// List the windows, and go on with `arrange_apps`.
    List(ListRequest),
    /// Activate the window, tell `activate_candidate` whether it had been
    /// minimized, then speak.
    Activate { hwnd: isize, announcement: Option<String> },
    /// Tell that the selection of the overlay moved, then speak.
    Select { announcement: Option<String> },
    /// Speak, and nothing else.
    Describe { announcement: Option<String> },
}

/// What a `SwitchStep` says.
pub enum StepModel {
    List(ListRequest),
    Activate { hwnd: isize, announcement: Option<Seq<char>> },
    Select { announcement: Option<Seq<char>> },
    Describe { announcement: Option<Seq<char>> },
}

impl View for SwitchStep {
    type V = StepModel;

    open spec fn view(&self) -> StepModel {
        match *self {
            SwitchStep::List(request) => StepModel::List(request),
            SwitchStep::Activate { hwnd, announcement } => StepModel::Activate {
                hwnd,
                announcement: text_of(announcement),
            },
            SwitchStep::Select { announcement } => StepModel::Select {
                announcement: text_of(announcement),
            },
            SwitchStep::Describe { announcement } => StepModel::Describe {
                announcement: text_of(announcement),
            },
        }
    }
}

/// The session with the selection on the next app, or on the one before.
pub open spec fn hopped(session: AppsSession, reverse: bool) -> AppsSession {
    AppsSession {
        index: stepped(session.index as int, session.apps.len() as int, reverse) as usize,
        ..session
    }
}

/// What a hop asks for. With the accessible list the overlay holds the focus and
/// speaks for itself; without it, the app's window is activated, and the genuine
/// change of focus is what a screen reader announces.
pub open spec fn hop_step(app: AppModel, session: AppsSession) -> StepModel {
    let spoken = announcement(session, app.config.switch_apps_announce);
    if app.config.switch_apps_accessible_list {
        StepModel::Select { announcement: spoken }
    } else {
        StepModel::Activate { hwnd: session.selected_window()->0, announcement: spoken }
    }
}

/// The apps to be shown, and the icons that are no longer needed.
pub struct AppList {
    pub entries: Vec<AppEntry>,
    /// Icons of apps that were closed, to be destroyed.
    pub stale_icons: Vec<isize>,
}

/// The order in which the apps are shown: that of the MRU list, after the app in
/// the foreground was promoted in it; apps never seen before come last.
pub open spec fn app_order(
    app_mru: Seq<Seq<char>>,
    apps: Seq<AppGroup>,
    foreground: isize,
) -> Seq<Seq<char>> {
    let known = match owner(apps, foreground) {
        Some(group) => promoted(app_mru, group.key, same()),
        None => app_mru,
    };
    ordered(known, keys_of(apps), same())
}

/// The MRU list of windows without those that were closed, with the window in the
/// foreground promoted in it.
pub open spec fn window_order(
    window_mru: Seq<isize>,
    apps: Seq<AppGroup>,
    foreground: isize,
) -> Seq<isize> {
    let known = window_mru.filter(|id: isize| is_open(apps, id));
    if is_open(apps, foreground) {
        promoted(known, foreground, same())
    } else {
        known
    }
}

/// The cached icons of the apps that are still open.
pub open spec fn kept_icons(
    icons: Seq<(Seq<char>, isize)>,
    apps: Seq<AppGroup>,
) -> Seq<(Seq<char>, isize)> {
    icons.filter(|p: (Seq<char>, isize)| keys_of(apps).contains(p.0))
}

/// The cached icons of the apps that were closed.
pub open spec fn stale_icons(icons: Seq<(Seq<char>, isize)>, apps: Seq<AppGroup>) -> Seq<isize> {
    icons.filter(|p: (Seq<char>, isize)| !keys_of(apps).contains(p.0)).map_values(
        |p: (Seq<char>, isize)| p.1,
    )
}

/// The cached icon is that of the app.
pub open spec fn is_icon_of(cached: (Seq<char>, isize), key: Seq<char>) -> bool {
    cached.0 == key
}

/// The cached icon of an app.
pub open spec fn cached_icon(icons: Seq<(Seq<char>, isize)>, key: Seq<char>) -> Option<isize> {
    let hits = icons.filter(|p: (Seq<char>, isize)| is_icon_of(p, key));
    if hits.len() > 0 {
        Some(hits.first().1)
    } else {
        None
    }
}

/// The switcher once the apps are arranged.
pub open spec fn arranged(app: AppModel, apps: Seq<AppGroup>, foreground: isize) -> AppModel {
    AppModel {
        app_mru: app_order(app.app_mru, apps, foreground),
        window_mru: window_order(app.window_mru, apps, foreground),
        icons: kept_icons(app.icons, apps),
        ..app
    }
}

/// The entry for an app: the window to go to, its title, and the app's icon.
pub open spec fn entry_of(app: AppModel, apps: Seq<AppGroup>, key: Seq<char>) -> EntryModel {
    let windows = group_of(apps, key).windows;
    EntryModel {
        key,
        window: picked(app.window_mru, windows),
        name: title_of(windows, picked(app.window_mru, windows)),
        icon: cached_icon(app.icons, key),
    }
}

/// The entries for the apps, in order, once they are arranged.
pub open spec fn entries_of(app: AppModel, apps: Seq<AppGroup>) -> Seq<EntryModel> {
    app.app_mru.map_values(|key: Seq<char>| entry_of(app, apps, key))
}

/// The entries are for different apps, and have the icons that are cached for them.
pub open spec fn fits(app: AppModel, entries: Seq<EntryModel>) -> bool {
    &&& entries.map_values(|e: EntryModel| e.key).no_duplicates()
    &&& forall|i: int|
        0 <= i < entries.len() ==> (#[trigger] entries[i]).icon == cached_icon(
            app.icons,
            entries[i].key,
        )
}

/// An app without a cached icon is not among the keys of the cache.
pub proof fn lemma_cached_icon(icons: Seq<(Seq<char>, isize)>, key: Seq<char>)
    ensures
        cached_icon(icons, key) is Some <==> icon_keys(icons).contains(key),
{
    let wanted = |p: (Seq<char>, isize)| is_icon_of(p, key);
    let hits = icons.filter(wanted);
    if hits.len() > 0 {
        assert(hits.contains(hits[0]));
        lemma_filter_contains(icons, wanted, hits[0]);
        let i = choose|i: int| 0 <= i < icons.len() && icons[i] == hits[0];
        assert(icon_keys(icons)[i] == key);
    }
    if icon_keys(icons).contains(key) {
        let i = choose|i: int| 0 <= i < icon_keys(icons).len() && icon_keys(icons)[i] == key;
        assert(icon_keys(icons)[i] == icons[i].0);
        assert(icons.contains(icons[i]));
        lemma_filter_contains(icons, wanted, icons[i]);
        assert(hits.contains(icons[i]));
    }
}

proof fn lemma_filtered_icon_keys(
    icons: Seq<(Seq<char>, isize)>,
    pred: spec_fn((Seq<char>, isize)) -> bool,
    key: Seq<char>,
)
    ensures
        icon_keys(icons.filter(pred)).contains(key) ==> icon_keys(icons).contains(key),
        icon_keys(icons).no_duplicates() ==> icon_keys(icons.filter(pred)).no_duplicates(),
    decreases icons.len(),
{
    reveal(Seq::filter);
    if icons.len() > 0 {
        let rest = icons.drop_last();
        let last = icons.last();
        lemma_filtered_icon_keys(rest, pred, key);
        lemma_filtered_icon_keys(rest, pred, last.0);
        assert(icon_keys(icons) =~= icon_keys(rest).push(last.0));
        assert(icon_keys(rest.filter(pred).push(last)) =~= icon_keys(rest.filter(pred)).push(
            last.0,
        ));
        lemma_push_contains(icon_keys(rest), last.0, key);
        lemma_push_contains(icon_keys(rest.filter(pred)), last.0, key);
        if icon_keys(icons).no_duplicates() {
            let keys = icon_keys(icons);
            assert forall|i: int, j: int|
                0 <= i < icon_keys(rest).len() && 0 <= j < icon_keys(rest).len() && i
                    != j implies icon_keys(rest)[i] != icon_keys(rest)[j] by {
                assert(keys[i] != keys[j]);
            }
            if icon_keys(rest).contains(last.0) {
                let i = choose|i: int|
                    0 <= i < icon_keys(rest).len() && icon_keys(rest)[i] == last.0;
                assert(keys[i] == keys[keys.len() - 1]);
            }
        }
    }
}

/// Arranging the apps keeps the switcher well-formed, and gives entries that fit.
pub proof fn arranging_keeps_wf(app: AppModel, apps: Seq<AppGroup>, foreground: isize)
    requires
        app.wf(),
    ensures
        arranged(app, apps, foreground).wf(),
        fits(
            arranged(app, apps, foreground),
            entries_of(arranged(app, apps, foreground), apps),
        ),
{
    let after = arranged(app, apps, foreground);
    let known = match owner(apps, foreground) {
        Some(group) => promoted(app.app_mru, group.key, same()),
        None => app.app_mru,
    };
    if owner(apps, foreground) is Some {
        lemma_promoted_no_duplicates(app.app_mru, owner(apps, foreground)->0.key);
    }
    order_is_complete(known, keys_of(apps), Seq::empty());
    let open = |id: isize| is_open(apps, id);
    lemma_filter_no_duplicates(app.window_mru, open);
    lemma_promoted_no_duplicates(app.window_mru.filter(open), foreground);
    lemma_filtered_icon_keys(
        app.icons,
        |p: (Seq<char>, isize)| keys_of(apps).contains(p.0),
        Seq::empty(),
    );
    let entries = entries_of(after, apps);
    assert(entries.map_values(|e: EntryModel| e.key) =~= after.app_mru);
}

impl App {
    /// Moves on in the session between apps: to the next app, or to the one before
    /// it. Where there is no session yet, remembers `foreground` as the window to
    /// go back to, and asks for a list of windows to open one.
    pub fn switch_apps(
        &mut self,
        uia: &mut ListProvider,
        reverse: bool,
        foreground: isize,
    ) -> (step: SwitchStep)
        requires
            old(self)@.wf(),
        ensures
            final(self)@.wf(),
            match old(self)@.apps {
                Some(session) => {
                    let next = hopped(session, reverse);
                    &&& final(self)@ == (AppModel { apps: Some(next), ..old(self)@ })
                    &&& final(uia)@ == (ListModel {
                        selection: SelectionModel {
                            selected: next.index,
                            ..old(uia)@.selection
                        },
                        ..old(uia)@
                    })
                    &&& step@ == hop_step(old(self)@, next)
                },
                None => {
                    &&& final(self)@ == (AppModel {
                        original_foreground: Some(foreground),
                        ..old(self)@
                    })
                    &&& final(uia)@ == old(uia)@
                    &&& step@ == StepModel::List(
                        ListRequest {
                            ignore_minimal: old(self)@.config.switch_apps_ignore_minimal,
                            only_current_desktop: old(
                                self,
                            )@.config.switch_apps_only_current_desktop,
                            is_admin: old(self)@.is_admin,
                        },
                    )
                },
            },
    {
        match self.switch_apps_state.take() {
            Some(mut state) => {
                let len = state.apps.len();
                if reverse {
                    if state.index == 0 {
                        state.index = len - 1;
                    } else {
                        state.index = state.index - 1;
                    }
                } else if state.index == len - 1 {
                    state.index = 0;
                } else {
                    state.index = state.index + 1;
                }
                let announcement = state.announcement_for(self.config.switch_apps_announce);
                let hwnd = state.apps[state.index].1;
                uia.set_selected_index(state.index);
                self.switch_apps_state = Some(state);
                if self.config.switch_apps_accessible_list {
                    SwitchStep::Select { announcement }
                } else {
                    SwitchStep::Activate { hwnd, announcement }
                }
            },
            None => {
                self.original_foreground = Some(foreground);
                SwitchStep::List(
                    ListRequest {
                        ignore_minimal: self.config.switch_apps_ignore_minimal,
                        only_current_desktop: self.config.switch_apps_only_current_desktop,
                        is_admin: self.is_admin,
                    },
                )
            },
        }
    }

    /// Picks which window of an app to activate: the one that the user most
    /// recently used, falling back to the topmost one. The fallback prefers a
    /// window that is not minimized.
    pub fn pick_app_window(&self, hwnds: &Vec<Window>) -> (hwnd: isize)
        requires
            hwnds@.len() > 0,
        ensures
            hwnd == picked(self@.window_mru, window_models(hwnds@)),
    {
        let ghost models = window_models(hwnds@);
        let ghost belongs = |id: isize| ids_of(models).contains(id);
        let ids = list_ids(hwnds);
        assert(decides_eq(same::<isize>()));
        match most_recent_index(self.window_mru.as_slice(), ids.as_slice()) {
            Some(i) => {
                proof {
                    let mru = self.window_mru@;
                    let eq = same::<isize>();
                    let m = choose|m: int|
                        {
                            &&& 0 <= m < mru.len()
                            &&& i < ids@.len()
                            &&& eq(ids@[i as int], #[trigger] mru[m])
                            &&& forall|j: int| 0 <= j < i ==> !eq(#[trigger] ids@[j], mru[m])
                            &&& forall|k: int|
                                0 <= k < m ==> !occurs(ids@, #[trigger] mru[k], eq)
                        };
                    assert(belongs(mru[m]));
                    assert forall|k: int| 0 <= k < m implies !belongs(#[trigger] mru[k]) by {
                        lemma_occurs_same(ids@, mru[k]);
                    }
                    lemma_first_of_filter(mru, m, belongs);
                    assert(ids@[i as int] == hwnds@[i as int].id);
                }
                hwnds[i].id
            },
            None => {
                proof {
                    let mru = self.window_mru@;
                    assert forall|k: int| 0 <= k < mru.len() implies !belongs(
                        #[trigger] mru[k],
                    ) by {
                        lemma_occurs_same(ids@, mru[k]);
                    }
                    lemma_filter_none(mru, belongs);
                    assert(models[0] == hwnds@[0]@);
                }
                if hwnds[0].minimized {
                    let ghost shown = |w: WindowModel| !w.minimized;
                    let mut i: usize = 0;
                    while i < hwnds.len()
                        invariant
                            i <= hwnds@.len(),
                            hwnds@.len() > 0,
                            hwnds@[0].minimized,
                            models == window_models(hwnds@),
                            belongs == (|id: isize| ids_of(models).contains(id)),
                            self.window_mru@.filter(belongs).len() == 0,
                            shown == (|w: WindowModel| !w.minimized),
                            forall|j: int| 0 <= j < i ==> !shown(#[trigger] models[j]),
                        decreases hwnds@.len() - i,
                    {
                        assert(models[i as int] == hwnds@[i as int]@);
                        if !hwnds[i].minimized {
                            proof {
                                lemma_first_of_filter(models, i as int, shown);
                            }
                            return hwnds[i].id;
                        }
                        i += 1;
                    }
                    proof {
                        lemma_filter_none(models, shown);
                    }
                }
                hwnds[0].id
            },
        }
    }

    /// The cached icon of an app.
    fn find_icon(&self, key: &String) -> (icon: Option<isize>)
        ensures
            icon == cached_icon(self@.icons, key@),
    {
        let ghost icons = self@.icons;
        let ghost wanted = |p: (Seq<char>, isize)| is_icon_of(p, key@);
        let mut i: usize = 0;
        while i < self.cached_icons.len()
            invariant
                i <= self.cached_icons@.len(),
                icons == self@.icons,
                wanted == (|p: (Seq<char>, isize)| is_icon_of(p, key@)),
                forall|j: int| 0 <= j < i ==> !wanted(#[trigger] icons[j]),
            decreases self.cached_icons@.len() - i,
        {
            assert(icons[i as int] == (
                self.cached_icons@[i as int].key@,
                self.cached_icons@[i as int].icon,
            ));
            if self.cached_icons[i].key == *key {
                proof {
                    lemma_first_of_filter(icons, i as int, wanted);
                }
                return Some(self.cached_icons[i].icon);
            }
            i += 1;
        }
        proof {
            lemma_filter_none(icons, wanted);
        }
        None
    }

    /// Forgets the icons of apps that were closed, and returns them.
    fn drop_stale_icons(
        &mut self,
        present: &Vec<String>,
        Ghost(apps): Ghost<Seq<AppGroup>>,
    ) -> (stale: Vec<isize>)
        requires
            texts(present@) == keys_of(apps),
        ensures
            stale@ == stale_icons(old(self)@.icons, apps),
            final(self)@ == (AppModel { icons: kept_icons(old(self)@.icons, apps), ..old(self)@ }),
    {
        let ghost icons = self@.icons;
        let ghost keep = |p: (Seq<char>, isize)| keys_of(apps).contains(p.0);
        let ghost toss = |p: (Seq<char>, isize)| !keys_of(apps).contains(p.0);
        let ghost handle = |p: (Seq<char>, isize)| p.1;
        let mut kept: Vec<CachedIcon> = Vec::new();
        let mut stale: Vec<isize> = Vec::new();
        let mut i: usize = 0;
        proof {
            lemma_same_text_decides();
            reveal(Seq::filter);
            assert(icon_models(kept@) =~= icons.take(0).filter(keep));
            assert(stale@ =~= icons.take(0).filter(toss).map_values(handle));
        }
        while i < self.cached_icons.len()
            invariant
                i <= self.cached_icons@.len(),
                self@ == old(self)@,
                icons == self@.icons,
                texts(present@) == keys_of(apps),
                decides_eq(same_text()),
                keep == (|p: (Seq<char>, isize)| keys_of(apps).contains(p.0)),
                toss == (|p: (Seq<char>, isize)| !keys_of(apps).contains(p.0)),
                handle == (|p: (Seq<char>, isize)| p.1),
                icon_models(kept@) == icons.take(i as int).filter(keep),
                stale@ == icons.take(i as int).filter(toss).map_values(handle),
            decreases self.cached_icons@.len() - i,
        {
            let ghost kept_before = kept@;
            let ghost stale_before = icons.take(i as int).filter(toss);
            let cached = &self.cached_icons[i];
            assert(icons[i as int] == (cached.key@, cached.icon));
            proof {
                lemma_occurs_text(present@, cached.key);
                lemma_filter_take(icons, i as int, keep);
                lemma_filter_take(icons, i as int, toss);
            }
            if contains(present.as_slice(), &cached.key) {
                kept.push(CachedIcon { key: cached.key.clone(), icon: cached.icon });
                assert(icon_models(kept@) =~= icon_models(kept_before).push(icons[i as int]));
            } else {
                stale.push(cached.icon);
                assert(stale@ =~= stale_before.push(icons[i as int]).map_values(handle));
            }
            i += 1;
        }
        assert(icons.take(i as int) =~= icons);
        self.cached_icons = kept;
        stale
    }

    /// Forgets the windows that were closed, and promotes the one in the
    /// foreground.
    fn refresh_window_mru(&mut self, windows: &Vec<AppWindows>, foreground: isize)
        ensures
            final(self)@ == (AppModel {
                window_mru: window_order(old(self)@.window_mru, groups(windows@), foreground),
                ..old(self)@
            }),
    {
        let ghost apps = groups(windows@);
        let ghost before = self.window_mru@;
        let all = list_all_ids(windows);
        retain_present(&mut self.window_mru, all.as_slice());
        proof {
            assert(decides_eq(same::<isize>()));
            let listed = |x: isize| occurs(all@, x, same());
            let open = |id: isize| is_open(apps, id);
            assert forall|j: int| 0 <= j < before.len() implies listed(#[trigger] before[j])
                == open(before[j]) by {
                lemma_occurs_same(all@, before[j]);
                assert(all@.contains(before[j]) <==> is_open(apps, before[j]));
            }
            lemma_filter_congruence(before, listed, open);
            lemma_occurs_same(all@, foreground);
            assert(all@.contains(foreground) <==> is_open(apps, foreground));
        }
        if contains(all.as_slice(), &foreground) {
            promote(&mut self.window_mru, foreground);
        }
    }

    /// Brings the app order up to date, and returns it.
    fn refresh_app_mru(
        &mut self,
        windows: &Vec<AppWindows>,
        present: &Vec<String>,
        foreground: isize,
    ) -> (order: Vec<String>)
        requires
            texts(present@) == keys_of(groups(windows@)),
        ensures
            texts(order@) == app_order(old(self)@.app_mru, groups(windows@), foreground),
            final(self)@ == (AppModel { app_mru: texts(order@), ..old(self)@ }),
    {
        proof {
            lemma_same_text_decides();
            assert(clones_compare_alike(same_text()));
        }
        if let Some(i) = find_owner(windows, foreground) {
            let key = windows[i].key.clone();
            proof {
                lemma_texts_promoted(self.app_mru@, key);
            }
            promote(&mut self.app_mru, key);
        }
        let ghost known = self.app_mru@;
        let order = order_by_mru(self.app_mru.as_slice(), present.as_slice());
        proof {
            let exact = ordered(known, present@, same_text());
            assert(all_cloned(exact, order@));
            assert(order@ =~= exact) by {
                assert forall|i: int| 0 <= i < order@.len() implies order@[i] == exact[i] by {
                    assert(cloned(exact[i], order@[i]));
                }
            }
            lemma_texts_ordered(known, present@);
        }
        self.app_mru = copy_texts(&order);
        order
    }

    /// Arranges the open apps for a new session: the app in the foreground first,
    /// then by last use. Apps, windows and icons that are gone are forgotten. There
    /// is no session where no window is listed.
    ///
    /// Each entry has the window to go to and its title, and the app's icon unless
    /// that is still to be loaded.
    pub fn arrange_apps(
        &mut self,
        windows: &Vec<AppWindows>,
        foreground: isize,
    ) -> (list: Option<AppList>)
        requires
            old(self)@.wf(),
            forall|i: int|
                0 <= i < windows@.len() ==> (#[trigger] windows@[i]).windows@.len() > 0,
        ensures
            final(self)@.wf(),
            match list {
                Some(list) => {
                    let apps = groups(windows@);
                    &&& apps.len() > 0
                    &&& final(self)@ == arranged(old(self)@, apps, foreground)
                    &&& entry_models(list.entries@) == entries_of(final(self)@, apps)
                    &&& list.entries@.len() > 0
                    &&& fits(final(self)@, entry_models(list.entries@))
                    &&& list.stale_icons@ == stale_icons(old(self)@.icons, apps)
                },
                None => windows@.len() == 0 && final(self)@ == old(self)@,
            },
    {
        if windows.len() == 0 {
            return None;
        }
        let ghost before = self@;
        let ghost apps = groups(windows@);
        let present = list_keys(windows);
        let stale_icons = self.drop_stale_icons(&present, Ghost(apps));
        let order = self.refresh_app_mru(windows, &present, foreground);
        self.refresh_window_mru(windows, foreground);
        proof {
            arranging_keeps_wf(before, apps, foreground);
        }
        assert(self@ == arranged(before, apps, foreground));
        let ghost after = self@;
        let mut entries: Vec<AppEntry> = Vec::new();
        let mut i: usize = 0;
        while i < order.len()
            invariant
                i <= order@.len(),
                self@ == after,
                apps == groups(windows@),
                after.app_mru == texts(order@),
                after.app_mru == app_order(before.app_mru, apps, foreground),
                forall|j: int|
                    0 <= j < windows@.len() ==> (#[trigger] windows@[j]).windows@.len() > 0,
                entries@.len() == i,
                forall|j: int|
                    0 <= j < i ==> (#[trigger] entries@[j])@ == entry_of(
                        after,
                        apps,
                        after.app_mru[j],
                    ),
            decreases order@.len() - i,
        {
            let key = &order[i];
            proof {
                assert(after.app_mru[i as int] == key@);
                assert(after.app_mru.contains(key@));
                let known = match owner(apps, foreground) {
                    Some(group) => promoted(before.app_mru, group.key, same()),
                    None => before.app_mru,
                };
                order_is_complete(known, keys_of(apps), key@);
            }
            let g = find_group(windows, key);
            let hwnds = &windows[g].windows;
            let window = self.pick_app_window(hwnds);
            let name = find_title(hwnds, window);
            let icon = self.find_icon(key);
            entries.push(AppEntry { key: key.clone(), window, name, icon });
            i += 1;
        }
        proof {
            assert(entry_models(entries@) =~= entries_of(after, apps));
            let known = match owner(apps, foreground) {
                Some(group) => promoted(before.app_mru, group.key, same()),
                None => before.app_mru,
            };
            assert(keys_of(apps).contains(keys_of(apps)[0]));
            order_is_complete(known, keys_of(apps), keys_of(apps)[0]);
        }
        Some(AppList { entries, stale_icons })
    }
}

/// The icons that were loaded for the entries without one, by app.
pub open spec fn new_icons(
    entries: Seq<EntryModel>,
    loaded: Seq<isize>,
) -> Seq<(Seq<char>, isize)> {
    Seq::new(
        without_icon(entries).len(),
        |j: int| (without_icon(entries)[j].key, loaded[j]),
    )
}

/// What opening a session asks for. With the accessible list the apps are left
/// alone until the user commits; the overlay takes the focus once it is shown.
pub open spec fn opening_step(app: AppModel, session: AppsSession) -> StepModel {
    let spoken = announcement(session, app.config.switch_apps_announce);
    if app.config.switch_apps_accessible_list {
        StepModel::Describe { announcement: spoken }
    } else {
        StepModel::Activate { hwnd: session.selected_window()->0, announcement: spoken }
    }
}

/// Caching the icons that were loaded for entries that fit keeps one per app.
proof fn lemma_new_icons(app: AppModel, entries: Seq<EntryModel>, loaded: Seq<isize>)
    requires
        icon_keys(app.icons).no_duplicates(),
        fits(app, entries),
    ensures
        icon_keys(app.icons + new_icons(entries, loaded)).no_duplicates(),
{
    let key = |e: EntryModel| e.key;
    let missing = |e: EntryModel| e.icon is None;
    let without = without_icon(entries);
    let keys = icon_keys(app.icons + new_icons(entries, loaded));
    let n = app.icons.len();
    lemma_filtered_entry_keys(entries, missing, Seq::empty());
    assert forall|j: int| 0 <= j < without.len() implies !icon_keys(app.icons).contains(
        #[trigger] without[j].key,
    ) by {
        assert(without.contains(without[j]));
        lemma_filter_contains(entries, missing, without[j]);
        let i = choose|i: int| 0 <= i < entries.len() && entries[i] == without[j];
        assert(entries[i].icon == cached_icon(app.icons, entries[i].key));
        lemma_cached_icon(app.icons, without[j].key);
    }
    assert forall|i: int, j: int| 0 <= i < j < keys.len() implies keys[i] != keys[j] by {
        if j < n {
            assert(keys[i] == icon_keys(app.icons)[i] && keys[j] == icon_keys(app.icons)[j]);
        } else if i < n {
            assert(keys[i] == icon_keys(app.icons)[i]);
            assert(icon_keys(app.icons).contains(keys[i]));
            assert(keys[j] == without[j - n].key);
        } else {
            assert(keys[i] == without.map_values(key)[i - n]);
            assert(keys[j] == without.map_values(key)[j - n]);
        }
    }
}

proof fn lemma_filtered_entry_keys(
    entries: Seq<EntryModel>,
    pred: spec_fn(EntryModel) -> bool,
    x: Seq<char>,
)
    ensures
        entries.filter(pred).map_values(|e: EntryModel| e.key).contains(x) ==> entries.map_values(
            |e: EntryModel| e.key,
        ).contains(x),
        entries.map_values(|e: EntryModel| e.key).no_duplicates() ==> entries.filter(
            pred,
        ).map_values(|e: EntryModel| e.key).no_duplicates(),
    decreases entries.len(),
{
    reveal(Seq::filter);
    let key = |e: EntryModel| e.key;
    if entries.len() > 0 {
        let rest = entries.drop_last();
        let last = entries.last();
        lemma_filtered_entry_keys(rest, pred, x);
        lemma_filtered_entry_keys(rest, pred, last.key);
        let keys = entries.map_values(key);
        let rest_keys = rest.map_values(key);
        assert(keys =~= rest_keys.push(last.key));
        assert(rest.filter(pred).push(last).map_values(key) =~= rest.filter(pred).map_values(
            key,
        ).push(last.key));
        lemma_push_contains(rest_keys, last.key, x);
        lemma_push_contains(rest.filter(pred).map_values(key), last.key, x);
        if keys.no_duplicates() {
            assert forall|i: int, j: int|
                0 <= i < rest_keys.len() && 0 <= j < rest_keys.len() && i != j implies rest_keys[i]
                != rest_keys[j] by {
                assert(keys[i] != keys[j]);
            }
            if rest_keys.contains(last.key) {
                let i = choose|i: int| 0 <= i < rest_keys.len() && rest_keys[i] == last.key;
                assert(keys[i] == keys[keys.len() - 1]);
            }
        }
    }
}

/// What is to be done when a session between apps ends.
pub struct Closing {
    /// The session that ended; the overlay is to be taken down.
    pub state: SwitchAppsState,
    /// Windows to minimize again, in order.
    pub minimize: Vec<isize>,
    /// The window to activate after that.
    pub activate: Option<isize>,
}

/// The windows that were restored for a preview and are to be minimized again.
pub open spec fn undone(restored: Seq<isize>, keep: Option<isize>) -> Seq<isize> {
    restored.filter(|id: isize| keep != Some(id))
}

/// The switcher after the session was committed.
pub open spec fn committed(app: AppModel, session: AppsSession) -> AppModel {
    AppModel {
        apps: None,
        original_foreground: None,
        restored_windows: Seq::empty(),
        app_mru: match session.selected_key() {
            Some(key) => promoted(app.app_mru, key, same()),
            None => app.app_mru,
        },
        window_mru: match session.selected_window() {
            Some(hwnd) => promoted(app.window_mru, hwnd, same()),
            None => app.window_mru,
        },
        ..app
    }
}

/// The switcher after the session was cancelled.
pub open spec fn cancelled(app: AppModel) -> AppModel {
    AppModel {
        apps: None,
        original_foreground: None,
        restored_windows: Seq::empty(),
        ..app
    }
}

/// The list shows nothing any more.
pub open spec fn cleared(uia: ListModel) -> ListModel {
    ListModel { selection: no_selection(), ..uia }
}

impl App {
    /// Opens a session that shows the entries. `loaded` holds the icons of the
    /// entries that had none, in order; `rects` says where the entries are drawn.
    pub fn open_apps(
        &mut self,
        uia: &mut ListProvider,
        entries: &Vec<AppEntry>,
        loaded: &Vec<isize>,
        rects: Vec<Rect>,
        reverse: bool,
    ) -> (step: SwitchStep)
        requires
            old(self)@.wf(),
            entries@.len() > 0,
            fits(old(self)@, entry_models(entries@)),
            loaded@.len() == without_icon(entry_models(entries@)).len(),
        ensures
            final(self)@.wf(),
            ({
                let shown = entry_models(entries@);
                let session = opened(shown, loaded@, reverse);
                &&& final(self)@ == (AppModel {
                    apps: Some(session),
                    icons: old(self)@.icons + new_icons(shown, loaded@),
                    ..old(self)@
                })
                &&& final(uia)@ == (ListModel {
                    selection: SelectionModel {
                        names: session.names,
                        rects: rects@,
                        selected: session.index,
                    },
                    ..old(uia)@
                })
                &&& step@ == opening_step(old(self)@, session)
            }),
    {
        let ghost before = self@;
        let ghost shown = entry_models(entries@);
        let ghost missing = |e: EntryModel| e.icon is None;
        let mut apps: Vec<(isize, isize)> = Vec::new();
        let mut keys: Vec<String> = Vec::new();
        let mut names: Vec<String> = Vec::new();
        let mut next: usize = 0;
        let mut i: usize = 0;
        proof {
            lemma_new_icons(before, shown, loaded@);
            reveal(Seq::filter);
            assert(before.icons + new_icons(shown.take(0), loaded@) =~= before.icons);
        }
        while i < entries.len()
            invariant
                i <= entries@.len(),
                shown == entry_models(entries@),
                missing == (|e: EntryModel| e.icon is None),
                loaded@.len() == without_icon(shown).len(),
                next == without_icon(shown.take(i as int)).len(),
                self@ == (AppModel {
                    icons: before.icons + new_icons(shown.take(i as int), loaded@),
                    ..before
                }),
                apps@.len() == i,
                keys@.len() == i,
                names@.len() == i,
                forall|j: int|
                    0 <= j < i ==> #[trigger] apps@[j] == (
                        icon_at(shown, loaded@, j),
                        shown[j].window,
                    ),
                forall|j: int| 0 <= j < i ==> (#[trigger] keys@[j])@ == shown[j].key,
                forall|j: int| 0 <= j < i ==> (#[trigger] names@[j])@ == shown[j].name,
            decreases entries@.len() - i,
        {
            let entry = &entries[i];
            assert(shown[i as int] == entry@);
            let ghost taken = without_icon(shown.take(i as int));
            let ghost icons_before = new_icons(shown.take(i as int), loaded@);
            proof {
                lemma_filter_take(shown, i as int, missing);
                lemma_without_icon_len(shown, i + 1);
            }
            let icon = match entry.icon {
                Some(icon) => icon,
                None => {
                    let icon = loaded[next];
                    let ghost cached = self.cached_icons@;
                    self.cached_icons.push(CachedIcon { key: entry.key.clone(), icon });
                    next += 1;
                    proof {
                        assert(new_icons(shown.take(i + 1), loaded@) =~= icons_before.push(
                            (entry.key@, icon),
                        ));
                        assert(self@.icons =~= icon_models(cached).push((entry.key@, icon)));
                        assert(self@.icons =~= before.icons + new_icons(
                            shown.take(i + 1),
                            loaded@,
                        ));
                    }
                    icon
                },
            };
            apps.push((icon, entry.window));
            keys.push(entry.key.clone());
            names.push(entry.name.clone());
            i += 1;
        }
        assert(shown.take(i as int) =~= shown);
        let len = apps.len();
        let index: usize = if len == 1 {
            0
        } else if reverse {
            len - 1
        } else {
            1
        };
        let hwnd = apps[index].1;
        uia.set_selection(Selection { names: copy_texts(&names), rects, selected: index });
        let state = SwitchAppsState { apps, keys, names, index };
        proof {
            let session = opened(shown, loaded@, reverse);
            assert(state@.apps =~= session.apps);
            assert(state@.keys =~= session.keys);
            assert(state@.names =~= session.names);
        }
        let announcement = state.announcement_for(self.config.switch_apps_announce);
        self.switch_apps_state = Some(state);
        if self.config.switch_apps_accessible_list {
            SwitchStep::Describe { announcement }
        } else {
            SwitchStep::Activate { hwnd, announcement }
        }
    }

    /// Takes note that `hwnd` was activated as a candidate. If it had to be restored
    /// from the taskbar for that, it is remembered, so that it can be put back should
    /// the user move on.
    pub fn activate_candidate(&mut self, hwnd: isize, restored: bool)
        requires
            old(self)@.wf(),
        ensures
            final(self)@.wf(),
            final(self)@ == (AppModel {
                restored_windows: if restored {
                    with_inserted(old(self)@.restored_windows, hwnd)
                } else {
                    old(self)@.restored_windows
                },
                ..old(self)@
            }),
    {
        proof {
            assert(decides_eq(same::<isize>()));
            lemma_occurs_same(self.restored_windows@, hwnd);
        }
        if restored && !contains(self.restored_windows.as_slice(), &hwnd) {
            self.restored_windows.push(hwnd);
        }
    }

    /// Forgets the previews, and returns the windows to minimize again: every one
    /// that was restored just to preview it, except `keep`.
    pub fn undo_previews(&mut self, keep: Option<isize>) -> (minimize: Vec<isize>)
        ensures
            minimize@ == undone(old(self)@.restored_windows, keep),
            final(self)@ == (AppModel { restored_windows: Seq::empty(), ..old(self)@ }),
    {
        let ghost restored = self.restored_windows@;
        let ghost leaves = |id: isize| keep != Some(id);
        let mut minimize: Vec<isize> = Vec::new();
        let mut i: usize = 0;
        proof {
            reveal(Seq::filter);
            assert(minimize@ =~= restored.take(0).filter(leaves));
        }
        while i < self.restored_windows.len()
            invariant
                i <= self.restored_windows@.len(),
                self@ == old(self)@,
                restored == self.restored_windows@,
                leaves == (|id: isize| keep != Some(id)),
                minimize@ == restored.take(i as int).filter(leaves),
            decreases self.restored_windows@.len() - i,
        {
            let id = self.restored_windows[i];
            proof {
                lemma_filter_take(restored, i as int, leaves);
            }
            let stays = match keep {
                Some(kept) => kept == id,
                None => false,
            };
            if !stays {
                minimize.push(id);
            }
            i += 1;
        }
        assert(restored.take(i as int) =~= restored);
        self.restored_windows = Vec::new();
        minimize
    }

    /// Ends the session on the selected app: it becomes the most recent one, its
    /// window is activated, and every window that was restored on the way is put
    /// back.
    pub fn do_switch_app(&mut self, uia: &mut ListProvider) -> (closing: Option<Closing>)
        requires
            old(self)@.idle_wf(),
        ensures
            final(self)@.wf(),
            match old(self)@.apps {
                Some(session) => {
                    &&& closing matches Some(c)
                    &&& c.state@ == session
                    &&& c.activate == session.selected_window()
                    &&& c.minimize@ == undone(
                        old(self)@.restored_windows,
                        session.selected_window(),
                    )
                    &&& final(self)@ == committed(old(self)@, session)
                    &&& final(uia)@ == cleared(old(uia)@)
                },
                None => closing is None && final(self)@ == old(self)@ && final(uia)@ == old(uia)@,
            },
    {
        match self.switch_apps_state.take() {
            Some(state) => {
                self.original_foreground = None;
                uia.clear();
                proof {
                    lemma_same_text_decides();
                    assert(decides_eq(same::<isize>()));
                }
                if state.index < state.keys.len() {
                    let key = state.keys[state.index].clone();
                    proof {
                        lemma_texts_promoted(self.app_mru@, key);
                        lemma_promoted_no_duplicates(texts(self.app_mru@), key@);
                    }
                    promote(&mut self.app_mru, key);
                }
                let chosen = state.selected_window();
                let minimize = self.undo_previews(chosen);
                if let Some(id) = chosen {
                    proof {
                        lemma_promoted_no_duplicates(self.window_mru@, id);
                    }
                    promote(&mut self.window_mru, id);
                }
                Some(Closing { state, minimize, activate: chosen })
            },
            None => None,
        }
    }

    /// Ends the session without a choice. If `restore_original`, the window that
    /// was in the foreground at the start is activated again; otherwise the user
    /// stays where they are, on `foreground`. Every other window that was restored
    /// on the way is put back.
    pub fn cancel_switch_app(
        &mut self,
        uia: &mut ListProvider,
        restore_original: bool,
        foreground: isize,
    ) -> (closing: Option<Closing>)
        requires
            old(self)@.wf(),
        ensures
            final(self)@.wf(),
            match old(self)@.apps {
                Some(session) => {
                    let keep = if restore_original {
                        old(self)@.original_foreground
                    } else {
                        Some(foreground)
                    };
                    &&& closing matches Some(c)
                    &&& c.state@ == session
                    &&& c.activate == (if restore_original {
                        old(self)@.original_foreground
                    } else {
                        None
                    })
                    &&& c.minimize@ == undone(old(self)@.restored_windows, keep)
                    &&& final(self)@ == cancelled(old(self)@)
                    &&& final(uia)@ == cleared(old(uia)@)
                },
                None => closing is None && final(self)@ == old(self)@ && final(uia)@ == old(uia)@,
            },
    {
        match self.switch_apps_state.take() {
            Some(state) => {
                uia.clear();
                let original = self.original_foreground.take();
                let keep = if restore_original {
                    original
                } else {
                    Some(foreground)
                };
                let minimize = self.undo_previews(keep);
                let activate = if restore_original {
                    original
                } else {
                    None
                };
                Some(Closing { state, minimize, activate })
            },
            None => None,
        }
    }

    /// Ends the session on the app that was clicked. A click on no app changes
    /// nothing.
    pub fn click(&mut self, uia: &mut ListProvider, clicked: Option<usize>) -> (closing: Option<
        Closing,
    >)
        requires
            old(self)@.wf(),
        ensures
            final(self)@.wf(),
            match (old(self)@.apps, clicked) {
                (Some(session), Some(index)) => {
                    let on = AppsSession { index, ..session };
                    &&& closing matches Some(c)
                    &&& c.state@ == on
                    &&& c.activate == on.selected_window()
                    &&& c.minimize@ == undone(old(self)@.restored_windows, on.selected_window())
                    &&& final(self)@ == committed(old(self)@, on)
                    &&& final(uia)@ == cleared(old(uia)@)
                },
                _ => closing is None && final(self)@ == old(self)@ && final(uia)@ == old(uia)@,
            },
    {
        match clicked {
            Some(index) => {
                match self.switch_apps_state.take() {
                    Some(mut state) => {
                        state.index = index;
                        self.switch_apps_state = Some(state);
                        self.do_switch_app(uia)
                    },
                    None => None,
                }
            },
            None => None,
        }
    }
}

proof fn lemma_without_icon_len(entries: Seq<EntryModel>, i: int)
    requires
        0 <= i <= entries.len(),
    ensures
        without_icon(entries.take(i)).len() <= without_icon(entries).len(),
{
    let missing = |e: EntryModel| e.icon is None;
    assert(entries =~= entries.take(i) + entries.skip(i));
    Seq::filter_distributes_over_add(entries.take(i), entries.skip(i), missing);
}

/// What the caller is to do about a message.
#[derive(Clone, Copy, Debug, PartialEq, Eq, Structural)]
pub enum Task {
    Nothing,
    ShowTrayMenu,
    /// Call `switch_apps` and do what it asks for, then what `after_switch_apps`
    /// says. `opening` says whether there was no session yet.
    SwitchApps { reverse: bool, opening: bool },
    /// Call `end_session`.
    CommitSwitch,
    /// Call `end_session`.
    CancelSwitch,
    /// Call `switch_windows` on `switch_windows_target`, then `end_session`.
    SwitchWindows { reverse: bool },
    ProvideRoot,
    /// Find out what was clicked and call `click`.
    Click,
    Exit,
    ToggleStartup,
    /// Let the user edit the configuration, then call `reload_config`.
    Configure,
    /// Install the hooks anew.
    ReinstallHooks,
    /// Try to register the tray icon, then call `set_trayicon`.
    RegisterTrayIcon,
}

/// What is to be done about a message.
pub open spec fn task_for(app: AppModel, message: Message) -> Task {
    match message {
        Message::TrayIcon { clicked } => if app.trayicon && clicked {
            Task::ShowTrayMenu
        } else {
            Task::Nothing
        },
        Message::SwitchApps { reverse } => Task::SwitchApps { reverse, opening: app.apps is None },
        Message::SwitchAppsDone => Task::CommitSwitch,
        Message::SwitchAppsCancel => Task::CancelSwitch,
        Message::SwitchWindows { reverse } => Task::SwitchWindows { reverse },
        Message::GetRootObject => Task::ProvideRoot,
        Message::Click => Task::Click,
        Message::Exit => Task::Exit,
        Message::ToggleStartup => Task::ToggleStartup,
        Message::Configure => Task::Configure,
        Message::Resume => Task::ReinstallHooks,
        Message::RegisterTrayIcon => if app.trayicon {
            Task::RegisterTrayIcon
        } else {
            Task::Nothing
        },
        Message::SwitchWindowsDone => Task::Nothing,
        Message::HitTest => Task::Nothing,
        Message::EraseBackground => Task::Nothing,
        Message::Other => Task::Nothing,
    }
}

/// Where the user ends up when the session between apps ends.
pub struct Ending {
    /// The window to activate.
    pub activate: Option<isize>,
    /// The window that is not to be minimized again.
    pub keep: Option<isize>,
}

/// How a task ends the session between apps, if it does.
pub open spec fn ending_of(app: AppModel, task: Task, foreground: isize) -> Option<Ending> {
    match task {
        Task::CommitSwitch => {
            let chosen = app.apps->0.selected_window();
            Some(Ending { activate: chosen, keep: chosen })
        },
        Task::CancelSwitch => Some(
            Ending { activate: app.original_foreground, keep: app.original_foreground },
        ),
        Task::SwitchWindows { .. } => Some(Ending { activate: None, keep: Some(foreground) }),
        _ => None,
    }
}

/// The switcher after a task ended the session between apps.
pub open spec fn ended_by(app: AppModel, task: Task) -> AppModel {
    if task is CommitSwitch {
        committed(app, app.apps->0)
    } else {
        cancelled(app)
    }
}

/// What follows a step of the session between apps.
#[derive(Clone, Copy, Debug, PartialEq, Eq, Structural)]
pub struct AfterSwitch {
    /// Draw the overlay.
    pub paint: bool,
    /// Give the overlay the focus, and tell of its selection.
    pub focus_overlay: bool,
}

/// How an attempt to register the tray icon went.
#[derive(Clone, Copy, Debug, PartialEq, Eq, Structural)]
pub enum TrayAttempt {
    Registered,
    /// It failed; `exists` says whether the icon is there all the same.
    Failed { exists: bool },
}

/// Seconds to wait before another attempt to register the tray icon.
pub const TRAYICON_RETRY_SECS: u64 = 3;

/// What reading the configuration again led to.
pub enum Reload {
    /// It could not be read; the user is to be told.
    Alert(String),
    /// It says what it said before.
    Unchanged,
    /// It was taken over. The hooks depend on it and are to be installed anew.
    Reinstall,
}

impl App {
    /// Takes in a message, and tells what is to be done about it.
    pub fn handle_message(&mut self, message: Message) -> (task: Task)
        requires
            old(self)@.wf(),
        ensures
            task == task_for(old(self)@, message),
            final(self)@.wf(),
            final(self)@ == (if message is SwitchWindowsDone {
                AppModel {
                    windows: WindowsSession { modifier_released: true, ..old(self)@.windows },
                    ..old(self)@
                }
            } else {
                old(self)@
            }),
    {
        match message {
            Message::TrayIcon { clicked } => {
                if self.trayicon && clicked {
                    Task::ShowTrayMenu
                } else {
                    Task::Nothing
                }
            },
            Message::SwitchApps { reverse } => {
                Task::SwitchApps { reverse, opening: self.switch_apps_state.is_none() }
            },
            Message::SwitchAppsDone => Task::CommitSwitch,
            Message::SwitchAppsCancel => Task::CancelSwitch,
            Message::SwitchWindows { reverse } => Task::SwitchWindows { reverse },
            Message::SwitchWindowsDone => {
                self.switch_windows_state.modifier_released = true;
                Task::Nothing
            },
            Message::GetRootObject => Task::ProvideRoot,
            Message::Click => Task::Click,
            Message::Exit => Task::Exit,
            Message::ToggleStartup => Task::ToggleStartup,
            Message::Configure => Task::Configure,
            Message::Resume => Task::ReinstallHooks,
            Message::RegisterTrayIcon => {
                if self.trayicon {
                    Task::RegisterTrayIcon
                } else {
                    Task::Nothing
                }
            },
            Message::HitTest => Task::Nothing,
            Message::EraseBackground => Task::Nothing,
            Message::Other => Task::Nothing,
        }
    }

    /// What follows once `switch_apps` and what it asked for are done: the overlay is
    /// drawn while there is a session. In accessible-list mode it then takes the
    /// focus, if the session was just to be opened; only now that it is on screen can
    /// it do so.
    pub fn after_switch_apps(&self, opening: bool) -> (after: AfterSwitch)
        ensures
            after.paint == self@.apps is Some,
            after.focus_overlay == (opening && self@.config.switch_apps_accessible_list),
    {
        AfterSwitch {
            paint: self.switch_apps_state.is_some(),
            focus_overlay: opening && self.config.switch_apps_accessible_list,
        }
    }

    /// The window whose app is to switch its windows: that of the selected app while
    /// there is a session, else the one in the foreground.
    pub fn switch_windows_target(&self, foreground: isize) -> (hwnd: isize)
        ensures
            hwnd == (match self@.apps {
                Some(session) => match session.selected_window() {
                    Some(hwnd) => hwnd,
                    None => foreground,
                },
                None => foreground,
            }),
    {
        match &self.switch_apps_state {
            Some(state) => match state.selected_window() {
                Some(hwnd) => hwnd,
                None => foreground,
            },
            None => foreground,
        }
    }

    /// Ends the session between apps as a task asks for: on the selected app when it is
    /// committed; back at the window where the user started when it is cancelled; and on
    /// `foreground`, the window that was just activated, after a switch between windows.
    /// No other task ends it.
    pub fn end_session(
        &mut self,
        uia: &mut ListProvider,
        task: Task,
        foreground: isize,
    ) -> (closing: Option<Closing>)
        requires
            old(self)@.wf(),
        ensures
            final(self)@.wf(),
            match (old(self)@.apps, ending_of(old(self)@, task, foreground)) {
                (Some(session), Some(ending)) => {
                    &&& closing matches Some(c)
                    &&& c.state@ == session
                    &&& c.activate == ending.activate
                    &&& c.minimize@ == undone(old(self)@.restored_windows, ending.keep)
                    &&& final(self)@ == ended_by(old(self)@, task)
                    &&& final(uia)@ == cleared(old(uia)@)
                },
                _ => closing is None && final(self)@ == old(self)@ && final(uia)@ == old(uia)@,
            },
    {
        match task {
            Task::CommitSwitch => self.do_switch_app(uia),
            Task::CancelSwitch => self.cancel_switch_app(uia, true, foreground),
            Task::SwitchWindows { .. } => self.cancel_switch_app(uia, false, foreground),
            _ => None,
        }
    }

    /// After how many seconds to try again to register the tray icon, if at all:
    /// when the attempt failed and left no icon.
    pub fn set_trayicon(&self, attempt: TrayAttempt) -> (retry: Option<u64>)
        ensures
            retry == (if self@.trayicon && attempt == (TrayAttempt::Failed { exists: false }) {
                Some(TRAYICON_RETRY_SECS)
            } else {
                None
            }),
    {
        if !self.trayicon {
            return None;
        }
        match attempt {
            TrayAttempt::Registered => None,
            TrayAttempt::Failed { exists } => {
                if exists {
                    None
                } else {
                    Some(TRAYICON_RETRY_SECS)
                }
            },
        }
    }

    /// Takes over the configuration that was read again, unless it could not be read
    /// or says what it said before.
    pub fn reload_config(&mut self, loaded: Result<Config, String>) -> (reload: Reload)
        requires
            old(self)@.wf(),
        ensures
            final(self)@.wf(),
            match loaded {
                Err(error) => {
                    &&& reload matches Reload::Alert(text)
                    &&& text@ == error@
                    &&& final(self)@ == old(self)@
                },
                Ok(config) => {
                    let same = same_settings(config@, old(self)@.config);
                    &&& reload is Unchanged <==> same
                    &&& reload is Reinstall <==> !same
                    &&& final(self)@ == (if same {
                        old(self)@
                    } else {
                        AppModel { config: config@, ..old(self)@ }
                    })
                },
            },
    {
        match loaded {
            Err(error) => Reload::Alert(error),
            Ok(config) => {
                if config.same_as(&self.config) {
                    return Reload::Unchanged;
                }
                self.config = config;
                Reload::Reinstall
            },
        }
    }

    /// Empties the icon cache, and returns all icons, to be destroyed when the
    /// program ends.
    pub fn drain_icons(&mut self) -> (icons: Vec<isize>)
        requires
            old(self)@.wf(),
        ensures
            final(self)@.wf(),
            icons@ == old(self)@.icons.map_values(|p: (Seq<char>, isize)| p.1),
            final(self)@ == (AppModel { icons: Seq::empty(), ..old(self)@ }),
    {
        let mut icons: Vec<isize> = Vec::new();
        let mut i: usize = 0;
        while i < self.cached_icons.len()
            invariant
                i <= self.cached_icons@.len(),
                self@ == old(self)@,
                icons@.len() == i,
                forall|j: int| 0 <= j < i ==> #[trigger] icons@[j] == self.cached_icons@[j].icon,
            decreases self.cached_icons@.len() - i,
        {
            icons.push(self.cached_icons[i].icon);
            i += 1;
        }
        assert(icons@ =~= self@.icons.map_values(|p: (Seq<char>, isize)| p.1));
        self.cached_icons = Vec::new();
        assert(self@.icons =~= Seq::<(Seq<char>, isize)>::empty());
        icons
    }
}

/// Starts the switcher with a configuration.
pub fn start(config: &Config, is_admin: bool) -> (app: App)
    ensures
        app@ == initial(config@, is_admin),
        app@.wf(),
{
    App::start(config, is_admin)
}

} // verus!
