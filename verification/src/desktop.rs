//! What the desktop shows: the open windows, grouped by the app they belong to.
use crate::seqs::{
    lemma_concat_contains, lemma_filter_contains, lemma_filter_none, lemma_first_of_filter,
};
use crate::text::texts;
use vstd::prelude::*;

verus! {

/// An open window.
pub struct Window {
    /// The window's handle.
    pub id: isize,
    pub title: String,
    /// Whether the window is minimized to the taskbar.
    pub minimized: bool,
}

/// What a `Window` says.
pub struct WindowModel {
    pub id: isize,
    pub title: Seq<char>,
    pub minimized: bool,
}

impl View for Window {
    type V = WindowModel;

    open spec fn view(&self) -> WindowModel {
        WindowModel { id: self.id, title: self.title@, minimized: self.minimized }
    }
}

/// The windows of one app, topmost first.
pub struct AppWindows {
    /// The app's key: the path of its executable.
    pub key: String,
    pub windows: Vec<Window>,
}

/// What an `AppWindows` says.
pub struct AppGroup {
    pub key: Seq<char>,
    pub windows: Seq<WindowModel>,
}

/// The windows of a list.
pub open spec fn window_models(windows: Seq<Window>) -> Seq<WindowModel> {
    windows.map_values(|w: Window| w@)
}

impl View for AppWindows {
    type V = AppGroup;

    open spec fn view(&self) -> AppGroup {
        AppGroup { key: self.key@, windows: window_models(self.windows@) }
    }
}

/// The apps of a list.
pub open spec fn groups(apps: Seq<AppWindows>) -> Seq<AppGroup> {
    apps.map_values(|a: AppWindows| a@)
}

/// The handles of a list of windows, in order.
pub open spec fn ids_of(windows: Seq<WindowModel>) -> Seq<isize> {
    windows.map_values(|w: WindowModel| w.id)
}

/// The keys of a list of apps, in order.
pub open spec fn keys_of(apps: Seq<AppGroup>) -> Seq<Seq<char>> {
    apps.map_values(|a: AppGroup| a.key)
}

/// The app has the window `id`.
pub open spec fn owns(app: AppGroup, id: isize) -> bool {
    ids_of(app.windows).contains(id)
}

/// The first app that has the window `id`.
pub open spec fn owner(apps: Seq<AppGroup>, id: isize) -> Option<AppGroup> {
    let owners = apps.filter(|a: AppGroup| owns(a, id));
    if owners.len() > 0 {
        Some(owners.first())
    } else {
        None
    }
}

/// The position of the window `id` in a list, if it is there.
pub(crate) fn find_window(windows: &Vec<Window>, id: isize) -> (found: Option<usize>)
    ensures
        found is Some <==> ids_of(window_models(windows@)).contains(id),
        found matches Some(i) ==> i < windows@.len() && windows@[i as int].id == id,
        found matches Some(i) ==> forall|j: int|
            0 <= j < i ==> (#[trigger] windows@[j]).id != id,
{
    let ghost ids = ids_of(window_models(windows@));
    let mut i: usize = 0;
    while i < windows.len()
        invariant
            i <= windows@.len(),
            ids == ids_of(window_models(windows@)),
            forall|j: int| 0 <= j < i ==> (#[trigger] windows@[j]).id != id,
        decreases windows@.len() - i,
    {
        if windows[i].id == id {
            assert(ids[i as int] == id);
            return Some(i);
        }
        i += 1;
    }
    assert forall|j: int| 0 <= j < ids.len() implies ids[j] != id by {
        assert(ids[j] == windows@[j].id);
    }
    None
}

/// The position of the first app that has the window `id`.
pub(crate) fn find_owner(apps: &Vec<AppWindows>, id: isize) -> (found: Option<usize>)
    ensures
        match found {
            Some(i) => i < apps@.len() && owns(apps@[i as int]@, id) && owner(groups(apps@), id)
                == Some(apps@[i as int]@),
            None => owner(groups(apps@), id) is None,
        },
{
    let ghost all = groups(apps@);
    let ghost is_owner = |a: AppGroup| owns(a, id);
    let mut i: usize = 0;
    while i < apps.len()
        invariant
            i <= apps@.len(),
            all == groups(apps@),
            is_owner == (|a: AppGroup| owns(a, id)),
            forall|j: int| 0 <= j < i ==> !is_owner(#[trigger] all[j]),
        decreases apps@.len() - i,
    {
        assert(all[i as int] == apps@[i as int]@);
        if find_window(&apps[i].windows, id).is_some() {
            proof {
                lemma_first_of_filter(all, i as int, is_owner);
            }
            return Some(i);
        }
        i += 1;
    }
    proof {
        lemma_filter_none(all, is_owner);
    }
    None
}

/// The handles of a list of windows, in order.
pub(crate) fn list_ids(windows: &Vec<Window>) -> (ids: Vec<isize>)
    ensures
        ids@ == ids_of(window_models(windows@)),
{
    let mut ids: Vec<isize> = Vec::new();
    let mut i: usize = 0;
    while i < windows.len()
        invariant
            i <= windows@.len(),
            ids@.len() == i,
            forall|j: int| 0 <= j < i ==> #[trigger] ids@[j] == windows@[j].id,
        decreases windows@.len() - i,
    {
        ids.push(windows[i].id);
        i += 1;
    }
    assert(ids@ =~= ids_of(window_models(windows@)));
    ids
}

/// The window `id` is open.
pub open spec fn is_open(apps: Seq<AppGroup>, id: isize) -> bool {
    owner(apps, id) is Some
}

/// A window is open exactly if some app has it.
pub proof fn lemma_is_open(apps: Seq<AppGroup>, id: isize)
    ensures
        is_open(apps, id) <==> exists|i: int| 0 <= i < apps.len() && owns(#[trigger] apps[i], id),
{
    let is_owner = |a: AppGroup| owns(a, id);
    let owners = apps.filter(is_owner);
    if owners.len() > 0 {
        assert(owners.contains(owners[0]));
        lemma_filter_contains(apps, is_owner, owners[0]);
        let i = choose|i: int| 0 <= i < apps.len() && apps[i] == owners[0];
        assert(owns(apps[i], id));
    }
    if exists|i: int| 0 <= i < apps.len() && owns(#[trigger] apps[i], id) {
        let i = choose|i: int| 0 <= i < apps.len() && owns(#[trigger] apps[i], id);
        assert(apps.contains(apps[i]));
        lemma_filter_contains(apps, is_owner, apps[i]);
    }
}

/// The handles of all open windows.
pub(crate) fn list_all_ids(apps: &Vec<AppWindows>) -> (all: Vec<isize>)
    ensures
        forall|id: isize| #[trigger] all@.contains(id) <==> is_open(groups(apps@), id),
{
    let ghost models = groups(apps@);
    let mut all: Vec<isize> = Vec::new();
    let mut i: usize = 0;
    while i < apps.len()
        invariant
            i <= apps@.len(),
            models == groups(apps@),
            forall|id: isize| #[trigger]
                all@.contains(id) <==> exists|j: int| 0 <= j < i && owns(#[trigger] models[j], id),
        decreases apps@.len() - i,
    {
        let ghost before = all@;
        let mut ids = list_ids(&apps[i].windows);
        let ghost added = ids@;
        assert(models[i as int] == apps@[i as int]@);
        all.append(&mut ids);
        assert forall|id: isize| #[trigger] all@.contains(id) <==> exists|j: int|
            0 <= j < i + 1 && owns(#[trigger] models[j], id) by {
            lemma_concat_contains(before, added, id);
            assert(owns(models[i as int], id) <==> added.contains(id));
            if before.contains(id) {
                let j = choose|j: int| 0 <= j < i && owns(#[trigger] models[j], id);
                assert(owns(models[j], id));
            }
        }
        i += 1;
    }
    assert forall|id: isize| #[trigger] all@.contains(id) <==> is_open(models, id) by {
        lemma_is_open(models, id);
    }
    all
}

/// The keys of a list of apps, in order.
pub(crate) fn list_keys(apps: &Vec<AppWindows>) -> (keys: Vec<String>)
    ensures
        texts(keys@) == keys_of(groups(apps@)),
{
    let mut keys: Vec<String> = Vec::new();
    let mut i: usize = 0;
    while i < apps.len()
        invariant
            i <= apps@.len(),
            keys@.len() == i,
            forall|j: int| 0 <= j < i ==> (#[trigger] keys@[j])@ == apps@[j].key@,
        decreases apps@.len() - i,
    {
        keys.push(apps[i].key.clone());
        i += 1;
    }
    assert(texts(keys@) =~= keys_of(groups(apps@)));
    keys
}

/// The app with the given key: the first one listed under it.
pub open spec fn group_of(apps: Seq<AppGroup>, key: Seq<char>) -> AppGroup {
    apps.filter(|a: AppGroup| a.key == key).first()
}

/// The position of the app with the given key.
pub(crate) fn find_group(apps: &Vec<AppWindows>, key: &String) -> (found: usize)
    requires
        keys_of(groups(apps@)).contains(key@),
    ensures
        found < apps@.len(),
        apps@[found as int]@ == group_of(groups(apps@), key@),
{
    let ghost models = groups(apps@);
    let ghost wanted = |a: AppGroup| a.key == key@;
    let ghost at = choose|j: int| 0 <= j < keys_of(models).len() && keys_of(models)[j] == key@;
    assert(models[at].key == key@);
    let len = apps.len();
    let mut i: usize = 0;
    loop
        invariant
            len == apps@.len(),
            models == groups(apps@),
            wanted == (|a: AppGroup| a.key == key@),
            0 <= at < models.len(),
            wanted(models[at]),
            i <= at,
            forall|j: int| 0 <= j < i ==> !wanted(#[trigger] models[j]),
        decreases at - i,
    {
        assert(models[i as int] == apps@[i as int]@);
        if apps[i].key == *key {
            proof {
                lemma_first_of_filter(models, i as int, wanted);
            }
            return i;
        }
        assert(!wanted(models[i as int]));
        i += 1;
    }
}

/// The title of the window `id`; empty if it is not in the list.
pub open spec fn title_of(windows: Seq<WindowModel>, id: isize) -> Seq<char> {
    let hits = windows.filter(|w: WindowModel| w.id == id);
    if hits.len() > 0 {
        hits.first().title
    } else {
        Seq::empty()
    }
}

/// The title of the window `id`; empty if it is not in the list.
pub(crate) fn find_title(windows: &Vec<Window>, id: isize) -> (title: String)
    ensures
        title@ == title_of(window_models(windows@), id),
{
    let ghost models = window_models(windows@);
    let ghost wanted = |w: WindowModel| w.id == id;
    match find_window(windows, id) {
        Some(i) => {
            proof {
                assert(models[i as int].id == id);
                assert forall|j: int| 0 <= j < i implies !wanted(#[trigger] models[j]) by {
                    assert(models[j].id == windows@[j].id);
                }
                lemma_first_of_filter(models, i as int, wanted);
            }
            windows[i].title.clone()
        },
        None => {
            proof {
                assert forall|j: int| 0 <= j < models.len() implies !wanted(
                    #[trigger] models[j],
                ) by {
                    assert(ids_of(models)[j] == models[j].id);
                }
                lemma_filter_none(models, wanted);
            }
            String::new()
        },
    }
}

/// A window belongs to the first app that lists it.
pub proof fn first_app_with_the_window_owns_it(apps: Seq<AppGroup>, id: isize, i: int, w: int)
    requires
        0 <= i < apps.len(),
        0 <= w < apps[i].windows.len(),
        apps[i].windows[w].id == id,
        forall|j: int, v: int|
            0 <= j < i && 0 <= v < apps[j].windows.len() ==> (
            #[trigger] apps[j].windows[v]).id != id,
    ensures
        owner(apps, id) == Some(apps[i]),
        is_open(apps, id),
{
    let is_owner = |a: AppGroup| owns(a, id);
    assert(ids_of(apps[i].windows)[w] == id);
    assert forall|j: int| 0 <= j < i implies !is_owner(#[trigger] apps[j]) by {
        lemma_owns_none(apps[j], id);
    }
    lemma_first_of_filter(apps, i, is_owner);
}

proof fn lemma_owns_none(app: AppGroup, id: isize)
    requires
        forall|v: int| 0 <= v < app.windows.len() ==> (#[trigger] app.windows[v]).id != id,
    ensures
        !owns(app, id),
{
    if owns(app, id) {
        let v = choose|v: int|
            0 <= v < ids_of(app.windows).len() && ids_of(app.windows)[v] == id;
        assert(app.windows[v].id == id);
    }
}

/// A window that no app lists belongs to none, and is not open.
pub proof fn window_of_no_app_has_no_owner(apps: Seq<AppGroup>, id: isize)
    requires
        forall|j: int, v: int|
            0 <= j < apps.len() && 0 <= v < apps[j].windows.len() ==> (
            #[trigger] apps[j].windows[v]).id != id,
    ensures
        owner(apps, id) is None,
        !is_open(apps, id),
{
    let is_owner = |a: AppGroup| owns(a, id);
    assert forall|j: int| 0 <= j < apps.len() implies !is_owner(#[trigger] apps[j]) by {
        lemma_owns_none(apps[j], id);
    }
    lemma_filter_none(apps, is_owner);
}

/// A key stands for the first app listed under it.
pub proof fn key_stands_for_its_first_app(apps: Seq<AppGroup>, key: Seq<char>, i: int)
    requires
        0 <= i < apps.len(),
        apps[i].key == key,
        forall|j: int| 0 <= j < i ==> (#[trigger] apps[j]).key != key,
    ensures
        group_of(apps, key) == apps[i],
{
    lemma_first_of_filter(apps, i, |a: AppGroup| a.key == key);
}

/// A window's title is that of its first listing; one that is not listed has none.
pub proof fn title_is_that_of_the_window(windows: Seq<WindowModel>, id: isize, w: int)
    requires
        0 <= w <= windows.len(),
        forall|v: int| 0 <= v < w ==> (#[trigger] windows[v]).id != id,
    ensures
        w < windows.len() && windows[w].id == id ==> title_of(windows, id) == windows[w].title,
        w == windows.len() ==> title_of(windows, id).len() == 0,
{
    let wanted = |x: WindowModel| x.id == id;
    assert forall|v: int| 0 <= v < w implies !wanted(#[trigger] windows[v]) by {
        assert(windows[v].id != id);
    }
    if w == windows.len() {
        lemma_filter_none(windows, wanted);
    } else if windows[w].id == id {
        lemma_first_of_filter(windows, w, wanted);
    }
}

/// The models of what is on the desktop say, one by one and in order, what is there.
pub proof fn desktop_is_modelled_one_by_one(
    apps: Seq<AppWindows>,
    windows: Seq<Window>,
    i: int,
)
    ensures
        groups(apps).len() == apps.len(),
        0 <= i < apps.len() ==> groups(apps)[i].key == apps[i].key@ && groups(apps)[i].windows
            == window_models(apps[i].windows@),
        window_models(windows).len() == windows.len(),
        0 <= i < windows.len() ==> window_models(windows)[i] == (WindowModel {
            id: windows[i].id,
            title: windows[i].title@,
            minimized: windows[i].minimized,
        }),
{
}

/// Keys and handles are listed one by one and in order.
pub proof fn keys_and_handles_are_listed_in_order(
    apps: Seq<AppGroup>,
    windows: Seq<WindowModel>,
    i: int,
)
    ensures
        keys_of(apps).len() == apps.len(),
        0 <= i < apps.len() ==> keys_of(apps)[i] == apps[i].key,
        ids_of(windows).len() == windows.len(),
        0 <= i < windows.len() ==> ids_of(windows)[i] == windows[i].id,
{
}

} // verus!
