//! Cycling through the windows of one app.
//!
//! While the modifier of the hotkey stays down, one press after another walks
//! through the app's windows in the order in which they were first met.
use crate::desktop::{find_window, ids_of, list_ids, AppGroup, AppWindows};
use crate::id_set::{
    collect_handles, distinct, handles, has_handle, lemma_distinct, list_handles, remove_handle,
    swap_removed,
};
use crate::seqs::{lemma_concat_contains, lemma_filter_congruence, lemma_push_contains};
use vstd::prelude::*;

verus! {

/// Where the last switch between windows left off.
#[derive(Debug)]
pub struct WindowsCache {
    /// Key of the app whose windows were cycled.
    pub key: String,
    /// The window that was on top when the cycle started.
    pub id: isize,
    /// Position in `windows` of the window that was activated.
    pub index: usize,
    /// The app's windows, in the order in which they are cycled.
    pub windows: Vec<isize>,
}

/// What a `WindowsCache` says.
pub struct CacheModel {
    pub key: Seq<char>,
    pub id: isize,
    pub index: usize,
    pub windows: Seq<isize>,
}

impl View for WindowsCache {
    type V = CacheModel;

    open spec fn view(&self) -> CacheModel {
        CacheModel {
            key: self.key@,
            id: self.id,
            index: self.index,
            windows: self.windows@,
        }
    }
}

/// How the windows of an app are being cycled.
#[derive(Debug)]
pub struct SwitchWindowsState {
    pub cache: Option<WindowsCache>,
    /// Whether the modifier was released since the last switch.
    pub modifier_released: bool,
}

/// What a `SwitchWindowsState` says.
pub struct WindowsSession {
    pub cache: Option<CacheModel>,
    pub modifier_released: bool,
}

impl WindowsSession {
    /// The window that was activated is among those that are cycled.
    pub open spec fn wf(self) -> bool {
        self.cache matches Some(c) ==> c.index < c.windows.len()
    }
}

impl View for SwitchWindowsState {
    type V = WindowsSession;

    open spec fn view(&self) -> WindowsSession {
        WindowsSession {
            cache: match self.cache {
                Some(c) => Some(c@),
                None => None,
            },
            modifier_released: self.modifier_released,
        }
    }
}

/// The cached windows that are still `live`, in cached order, and the live
/// windows that are left over.
pub open spec fn sorted_out(cached: Seq<isize>, live: Seq<isize>) -> (Seq<isize>, Seq<isize>)
    decreases cached.len(),
{
    if cached.len() == 0 {
        (Seq::empty(), live)
    } else {
        let (kept, left) = sorted_out(cached.drop_last(), live);
        if left.contains(cached.last()) {
            (kept.push(cached.last()), swap_removed(left, cached.last()))
        } else {
            (kept, left)
        }
    }
}

/// The live windows in cycling order: those cached first, in cached order.
pub open spec fn merged(cached: Seq<isize>, live: Seq<isize>) -> Seq<isize> {
    sorted_out(cached, distinct(live)).0 + sorted_out(cached, distinct(live)).1
}

/// The position after `index` in a cycle of `len`, or before it.
pub open spec fn stepped(index: int, len: int, reverse: bool) -> int {
    if reverse {
        if index == 0 {
            len - 1
        } else {
            index - 1
        }
    } else if index >= len - 1 {
        0
    } else {
        index + 1
    }
}

/// What the session remembers of the app. With two windows there is nothing to
/// remember: one press always goes to the other.
pub open spec fn recalled(session: WindowsSession, app: AppGroup) -> Option<CacheModel> {
    match session.cache {
        Some(c) => if app.windows.len() > 2 && c.key == app.key {
            Some(c)
        } else {
            None
        },
        None => None,
    }
}

/// The switch goes on with the cycle that is under way.
pub open spec fn continues(session: WindowsSession, app: AppGroup) -> bool {
    recalled(session, app) is Some && !session.modifier_released
}

/// The cycling order that the switch uses.
pub open spec fn next_order(session: WindowsSession, app: AppGroup) -> Seq<isize> {
    if continues(session, app) {
        merged(recalled(session, app)->0.windows, ids_of(app.windows))
    } else {
        ids_of(app.windows)
    }
}

/// The position in `next_order` that the switch goes to.
///
/// A new cycle goes to the window below the top one, or, if the modifier was
/// released after an earlier cycle, back to the window which that one started
/// from.
pub open spec fn next_index(session: WindowsSession, app: AppGroup, reverse: bool) -> int {
    let live = ids_of(app.windows);
    match recalled(session, app) {
        Some(c) => if !session.modifier_released {
            stepped(c.index as int, app.windows.len() as int, reverse)
        } else if c.id != live[0] && live.contains(c.id) {
            live.index_of_first(c.id)->0
        } else {
            1
        },
        None => 1,
    }
}

/// The switch has a window to go to. It may have none where windows were closed
/// during a cycle and the step back starts beyond the last one.
pub open spec fn has_target(session: WindowsSession, app: AppGroup, reverse: bool) -> bool {
    next_index(session, app, reverse) < next_order(session, app).len()
}

/// The window that the switch activates.
pub open spec fn target(session: WindowsSession, app: AppGroup, reverse: bool) -> isize {
    next_order(session, app)[next_index(session, app, reverse)]
}

/// The session after the switch.
pub open spec fn advanced(session: WindowsSession, app: AppGroup, reverse: bool) -> WindowsSession {
    WindowsSession {
        cache: Some(
            CacheModel {
                key: app.key,
                id: if continues(session, app) {
                    recalled(session, app)->0.id
                } else {
                    ids_of(app.windows)[0]
                },
                index: next_index(session, app, reverse) as usize,
                windows: next_order(session, app),
            },
        ),
        modifier_released: false,
    }
}

/// Puts the live windows in cycling order.
fn merge(cached: &Vec<isize>, live: Vec<isize>) -> (order: Vec<isize>)
    ensures
        order@ == merged(cached@, live@),
{
    let ghost all = distinct(live@);
    let mut set = collect_handles(live);
    let mut order: Vec<isize> = Vec::new();
    let mut i: usize = 0;
    while i < cached.len()
        invariant
            i <= cached@.len(),
            sorted_out(cached@.take(i as int), all) == (order@, handles(set)),
        decreases cached@.len() - i,
    {
        let id = cached[i];
        assert(cached@.take(i + 1).drop_last() =~= cached@.take(i as int));
        if has_handle(&set, id) {
            order.push(id);
            remove_handle(&mut set, id);
        }
        i += 1;
    }
    assert(cached@.take(i as int) =~= cached@);
    let mut rest = list_handles(set);
    order.append(&mut rest);
    order
}

impl SwitchWindowsState {
    /// No cycle yet.
    pub fn new() -> (state: Self)
        ensures
            state@ == (WindowsSession { cache: None, modifier_released: true }),
            state@.wf(),
    {
        SwitchWindowsState { cache: None, modifier_released: true }
    }

    /// The position to go to, and the cycling order and the starting window if a
    /// cycle goes on.
    fn plan(&self, app: &AppWindows, reverse: bool) -> (plan: (usize, Option<(isize, Vec<isize>)>))
        requires
            app@.windows.len() >= 2,
        ensures
            plan.0 == next_index(self@, app@, reverse),
            plan.1 is Some <==> continues(self@, app@),
            plan.1 matches Some(p) ==> p.0 == recalled(self@, app@)->0.id && p.1@ == next_order(
                self@,
                app@,
            ),
    {
        let len = app.windows.len();
        if len <= 2 {
            return (1, None);
        }
        match &self.cache {
            None => (1, None),
            Some(cache) => {
                if cache.key != app.key {
                    return (1, None);
                }
                if self.modifier_released {
                    let ghost live = ids_of(app@.windows);
                    assert(live[0] == app.windows@[0].id);
                    if cache.id != app.windows[0].id {
                        if let Some(i) = find_window(&app.windows, cache.id) {
                            proof {
                                assert(live[i as int] == cache.id);
                                assert forall|j: int| 0 <= j < i implies live[j] != cache.id by {
                                    assert(live[j] == app.windows@[j].id);
                                }
                                live.index_of_first_ensures(cache.id);
                            }
                            return (i, None);
                        }
                    }
                    return (1, None);
                }
                let order = merge(&cache.windows, list_ids(&app.windows));
                let index = if reverse {
                    if cache.index == 0 {
                        len - 1
                    } else {
                        cache.index - 1
                    }
                } else if cache.index >= len - 1 {
                    0
                } else {
                    cache.index + 1
                };
                (index, Some((cache.id, order)))
            },
        }
    }

    /// Whether `advance` has a window to go to.
    pub fn can_advance(&self, app: &AppWindows, reverse: bool) -> (can: bool)
        requires
            app@.windows.len() >= 2,
        ensures
            can == has_target(self@, app@, reverse),
    {
        let (index, cycle) = self.plan(app, reverse);
        match cycle {
            Some((_, order)) => index < order.len(),
            None => index < app.windows.len(),
        }
    }

    /// Goes to the next window of `app`, or to the one before it, and returns the
    /// window to activate.
    pub fn advance(&mut self, app: &AppWindows, reverse: bool) -> (hwnd: isize)
        requires
            app@.windows.len() >= 2,
            has_target(old(self)@, app@, reverse),
        ensures
            hwnd == target(old(self)@, app@, reverse),
            final(self)@ == advanced(old(self)@, app@, reverse),
            final(self)@.wf(),
    {
        let (index, cycle) = self.plan(app, reverse);
        assert(ids_of(app@.windows)[0] == app.windows@[0].id);
        let (id, order) = match cycle {
            Some((id, order)) => (id, order),
            None => (app.windows[0].id, list_ids(&app.windows)),
        };
        let hwnd = order[index];
        self.cache = Some(WindowsCache { key: app.key.clone(), id, index, windows: order });
        self.modifier_released = false;
        hwnd
    }
}

proof fn lemma_swap_removed(s: Seq<isize>, x: isize, y: isize)
    requires
        s.no_duplicates(),
        s.contains(x),
    ensures
        swap_removed(s, x).no_duplicates(),
        swap_removed(s, x).len() == s.len() - 1,
        swap_removed(s, x).contains(y) <==> s.contains(y) && y != x,
{
    let i = s.index_of(x);
    let r = swap_removed(s, x);
    if r.contains(y) {
        let j = choose|j: int| 0 <= j < r.len() && r[j] == y;
        if j == i {
            assert(s[s.len() - 1] == y);
        } else {
            assert(s[j] == y);
        }
    }
    if s.contains(y) && y != x {
        let j = choose|j: int| 0 <= j < s.len() && s[j] == y;
        if j == s.len() - 1 {
            assert(r[i] == y);
        } else {
            assert(r[j] == y);
        }
    }
}

proof fn lemma_sorted_out(cached: Seq<isize>, live: Seq<isize>, x: isize)
    requires
        live.no_duplicates(),
    ensures
        sorted_out(cached, live).0.no_duplicates(),
        sorted_out(cached, live).1.no_duplicates(),
        sorted_out(cached, live).0.len() + sorted_out(cached, live).1.len() == live.len(),
        sorted_out(cached, live).0.contains(x) <==> live.contains(x) && cached.contains(x),
        sorted_out(cached, live).1.contains(x) <==> live.contains(x) && !cached.contains(x),
    decreases cached.len(),
{
    if cached.len() > 0 {
        let rest = cached.drop_last();
        let id = cached.last();
        lemma_sorted_out(rest, live, x);
        lemma_sorted_out(rest, live, id);
        let (kept, left) = sorted_out(rest, live);
        assert(cached =~= rest.push(id));
        lemma_push_contains(rest, id, x);
        if left.contains(id) {
            lemma_swap_removed(left, id, x);
            lemma_push_contains(kept, id, x);
        }
    }
}

proof fn lemma_kept(cached: Seq<isize>, live: Seq<isize>)
    requires
        live.no_duplicates(),
    ensures
        sorted_out(cached, live).0 == distinct(cached).filter(|x: isize| live.contains(x)),
    decreases cached.len(),
{
    reveal(Seq::filter);
    if cached.len() == 0 {
        assert(sorted_out(cached, live).0 =~= distinct(cached).filter(
            |x: isize| live.contains(x),
        ));
    } else {
        let rest = cached.drop_last();
        let id = cached.last();
        lemma_kept(rest, live);
        lemma_sorted_out(rest, live, id);
        lemma_distinct(rest, id);
        if !rest.contains(id) {
            assert(distinct(cached).drop_last() =~= distinct(rest));
        }
    }
}

/// Whatever was cached, the cycling order holds every live window exactly once.
pub proof fn cycling_order_is_complete(cached: Seq<isize>, live: Seq<isize>)
    ensures
        merged(cached, live).no_duplicates(),
        forall|id: isize| #[trigger] merged(cached, live).contains(id) <==> live.contains(id),
        live.no_duplicates() ==> merged(cached, live).len() == live.len(),
{
    let all = distinct(live);
    let (kept, left) = sorted_out(cached, all);
    let m = merged(cached, live);
    assert forall|id: isize| #[trigger] m.contains(id) <==> live.contains(id) by {
        lemma_distinct(live, id);
        lemma_sorted_out(cached, all, id);
        lemma_concat_contains(kept, left, id);
    }
    lemma_distinct(live, 0);
    lemma_sorted_out(cached, all, 0);
    assert forall|i: int, j: int| 0 <= i < j < m.len() implies m[i] != m[j] by {
        if i < kept.len() && j >= kept.len() {
            assert(kept.contains(kept[i]) && left.contains(left[j - kept.len()]));
            lemma_sorted_out(cached, all, m[i]);
        }
    }
}

proof fn lemma_kept_of_any(cached: Seq<isize>, live: Seq<isize>)
    ensures
        sorted_out(cached, distinct(live)).0 == distinct(cached).filter(
            |x: isize| live.contains(x),
        ),
{
    let all = distinct(live);
    let s = distinct(cached);
    lemma_distinct(live, 0);
    lemma_kept(cached, all);
    assert forall|j: int| 0 <= j < s.len() implies all.contains(#[trigger] s[j]) == live.contains(
        s[j],
    ) by {
        lemma_distinct(live, s[j]);
    }
    lemma_filter_congruence(s, |x: isize| all.contains(x), |x: isize| live.contains(x));
}

/// The windows that were already part of the cycle stay in front, in their order;
/// windows opened since come after them.
pub proof fn cycling_order_keeps_known_windows_first(cached: Seq<isize>, live: Seq<isize>)
    ensures
        ({
            let known = distinct(cached).filter(|x: isize| live.contains(x));
            &&& known.len() <= merged(cached, live).len()
            &&& merged(cached, live).take(known.len() as int) == known
        }),
{
    lemma_kept_of_any(cached, live);
    let (kept, left) = sorted_out(cached, distinct(live));
    assert((kept + left).take(kept.len() as int) =~= kept);
}

proof fn lemma_all_kept(cached: Seq<isize>, live: Seq<isize>)
    requires
        live.no_duplicates(),
        cached.no_duplicates(),
        forall|j: int| 0 <= j < cached.len() ==> live.contains(#[trigger] cached[j]),
    ensures
        sorted_out(cached, live).0 == cached,
    decreases cached.len(),
{
    if cached.len() == 0 {
        assert(sorted_out(cached, live).0 =~= cached);
    } else {
        let rest = cached.drop_last();
        let id = cached.last();
        assert forall|j: int| 0 <= j < rest.len() implies live.contains(#[trigger] rest[j]) by {
            assert(rest[j] == cached[j]);
        }
        lemma_all_kept(rest, live);
        lemma_sorted_out(rest, live, id);
        assert(live.contains(cached[cached.len() - 1]));
        if rest.contains(id) {
            let i = choose|i: int| 0 <= i < rest.len() && rest[i] == id;
            assert(cached[i] == cached[cached.len() - 1]);
        }
        assert(sorted_out(cached, live).0 =~= cached);
    }
}

/// While the same windows are open, the cycling order does not change.
pub proof fn cycling_order_is_stable(cached: Seq<isize>, live: Seq<isize>)
    requires
        cached.no_duplicates(),
        forall|id: isize| #[trigger] cached.contains(id) <==> live.contains(id),
    ensures
        merged(cached, live) == cached,
{
    let all = distinct(live);
    lemma_distinct(live, 0);
    assert forall|j: int| 0 <= j < cached.len() implies all.contains(#[trigger] cached[j]) by {
        assert(cached.contains(cached[j]));
        lemma_distinct(live, cached[j]);
    }
    lemma_all_kept(cached, all);
    let left = sorted_out(cached, all).1;
    if left.len() > 0 {
        assert(left.contains(left[0]));
        lemma_sorted_out(cached, all, left[0]);
        lemma_distinct(live, left[0]);
        assert(cached.contains(left[0]));
    }
    assert(cached + left =~= cached);
}

/// A switch on an app with distinct windows always has one to go to, but for a step
/// back that starts beyond the last window because windows were closed during the cycle.
pub proof fn switch_has_a_target(session: WindowsSession, app: AppGroup, reverse: bool)
    requires
        app.windows.len() >= 2,
        ids_of(app.windows).no_duplicates(),
    ensures
        has_target(session, app, reverse) <==> !(continues(session, app) && reverse && recalled(
            session,
            app,
        )->0.index > app.windows.len()),
{
    let live = ids_of(app.windows);
    if continues(session, app) {
        cycling_order_is_complete(recalled(session, app)->0.windows, live);
    } else if recalled(session, app) is Some {
        live.index_of_first_ensures(recalled(session, app)->0.id);
    }
}

/// The first press goes to the window below the top one.
pub proof fn first_press_goes_to_the_second_window(
    session: WindowsSession,
    app: AppGroup,
    reverse: bool,
)
    requires
        app.windows.len() >= 2,
        recalled(session, app) is None,
    ensures
        has_target(session, app, reverse),
        target(session, app, reverse) == app.windows[1].id,
{
}

/// A press after the modifier was released goes back to the window from which
/// the last cycle of this app started, unless that window is on top or gone.
pub proof fn next_press_goes_back_to_the_start(
    session: WindowsSession,
    app: AppGroup,
    reverse: bool,
)
    requires
        session.modifier_released,
        recalled(session, app) is Some,
        recalled(session, app)->0.id != app.windows[0].id,
        ids_of(app.windows).contains(recalled(session, app)->0.id),
    ensures
        has_target(session, app, reverse),
        target(session, app, reverse) == recalled(session, app)->0.id,
{
    ids_of(app.windows).index_of_first_ensures(recalled(session, app)->0.id);
}

/// A step back undoes a step: while the same windows are open, stepping one way
/// and then the other leads back to the window that was active.
pub proof fn step_back_undoes_step(
    session: WindowsSession,
    before: AppGroup,
    after: AppGroup,
    reverse: bool,
)
    requires
        continues(session, before),
        recalled(session, before)->0.index < before.windows.len(),
        before.windows.len() <= usize::MAX,
        ids_of(before.windows).no_duplicates(),
        ids_of(after.windows).no_duplicates(),
        after.windows.len() == before.windows.len(),
        forall|id: isize| #[trigger]
            ids_of(before.windows).contains(id) <==> ids_of(after.windows).contains(id),
        after.key == before.key,
    ensures
        has_target(session, before, reverse),
        ({
            let there = advanced(session, before, reverse);
            let back = advanced(there, after, !reverse);
            &&& continues(there, after)
            &&& has_target(there, after, !reverse)
            &&& target(there, after, !reverse) == next_order(
                session,
                before,
            )[recalled(session, before)->0.index as int]
            &&& back.cache->0.index == recalled(session, before)->0.index
            &&& back.cache->0.windows == next_order(session, before)
        }),
{
    let order = next_order(session, before);
    let live = ids_of(before.windows);
    let there = advanced(session, before, reverse);
    cycling_order_is_complete(recalled(session, before)->0.windows, live);
    assert forall|id: isize| #[trigger] order.contains(id) <==> ids_of(after.windows).contains(
        id,
    ) by {
        assert(order.contains(id) <==> live.contains(id));
    }
    cycling_order_is_stable(order, ids_of(after.windows));
}

/// The position that `steps` steps lead to from `start` in a cycle of `len`, one way or
/// the other, for up to a full round.
pub open spec fn around(start: int, len: int, steps: int, reverse: bool) -> int {
    if reverse {
        if steps <= start {
            start - steps
        } else {
            start - steps + len
        }
    } else if start + steps < len {
        start + steps
    } else {
        start + steps - len
    }
}

/// The number of steps, from one to a full round, that lead from `start` to `goal`.
pub open spec fn steps_to(start: int, len: int, goal: int, reverse: bool) -> int {
    if reverse {
        if goal < start {
            start - goal
        } else {
            start - goal + len
        }
    } else if goal > start {
        goal - start
    } else {
        goal - start + len
    }
}

/// One step more, within a full round.
pub proof fn lemma_around(start: int, len: int, steps: int, reverse: bool)
    requires
        0 <= start < len,
        0 <= steps < len,
    ensures
        around(start, len, steps + 1, reverse) == stepped(
            around(start, len, steps, reverse),
            len,
            reverse,
        ),
{
}

/// Within a full round every position is reached, each by one number of steps only.
pub proof fn lemma_steps_to(start: int, len: int, goal: int, steps: int, reverse: bool)
    requires
        0 <= start < len,
        0 <= goal < len,
        1 <= steps <= len,
    ensures
        1 <= steps_to(start, len, goal, reverse) <= len,
        around(start, len, steps, reverse) == goal <==> steps == steps_to(
            start,
            len,
            goal,
            reverse,
        ),
{
}

/// The app has the same windows in both lists, in whatever order they lie on top of
/// each other.
pub open spec fn same_windows(a: AppGroup, b: AppGroup) -> bool {
    &&& b.key == a.key
    &&& b.windows.len() == a.windows.len()
    &&& ids_of(b.windows).no_duplicates()
    &&& forall|id: isize| #[trigger]
        ids_of(a.windows).contains(id) <==> ids_of(b.windows).contains(id)
}

/// The session after one press for each list, which shows the app at that press.
pub open spec fn cycled(
    session: WindowsSession,
    lists: Seq<AppGroup>,
    reverse: bool,
) -> WindowsSession
    decreases lists.len(),
{
    if lists.len() == 0 {
        session
    } else {
        advanced(cycled(session, lists.drop_last(), reverse), lists.last(), reverse)
    }
}

/// The window that the session activated last.
pub open spec fn active(session: WindowsSession) -> isize {
    session.cache->0.windows[session.cache->0.index as int]
}

/// A cycle is under way on the app whose list at each press is given, and its windows
/// stay the same for one full round.
pub open spec fn is_full_round(session: WindowsSession, lists: Seq<AppGroup>) -> bool {
    &&& lists.len() > 0
    &&& continues(session, lists[0])
    &&& recalled(session, lists[0])->0.index < lists[0].windows.len()
    &&& lists.len() == lists[0].windows.len()
    &&& lists.len() <= usize::MAX
    &&& forall|k: int| 0 <= k < lists.len() ==> same_windows(lists[0], #[trigger] lists[k])
}

proof fn lemma_cycled(session: WindowsSession, lists: Seq<AppGroup>, presses: int, reverse: bool)
    requires
        is_full_round(session, lists),
        1 <= presses <= lists.len(),
    ensures
        ({
            let order = next_order(session, lists[0]);
            let before = cycled(session, lists.take(presses - 1), reverse);
            let c = cycled(session, lists.take(presses), reverse);
            &&& order.len() == lists.len()
            &&& order.no_duplicates()
            &&& has_target(before, lists[presses - 1], reverse)
            &&& c.cache == Some(
                CacheModel {
                    key: lists[0].key,
                    id: recalled(session, lists[0])->0.id,
                    index: around(
                        recalled(session, lists[0])->0.index as int,
                        lists.len() as int,
                        presses,
                        reverse,
                    ) as usize,
                    windows: order,
                },
            )
            &&& !c.modifier_released
        }),
    decreases presses,
{
    let order = next_order(session, lists[0]);
    let start = recalled(session, lists[0])->0.index as int;
    let n = lists.len() as int;
    let list = lists[presses - 1];
    assert(same_windows(lists[0], lists[0]));
    assert(same_windows(lists[0], list));
    cycling_order_is_complete(recalled(session, lists[0])->0.windows, ids_of(lists[0].windows));
    lemma_around(start, n, presses - 1, reverse);
    assert(lists.take(presses).drop_last() =~= lists.take(presses - 1));
    assert(lists.take(presses).last() == list);
    if presses == 1 {
        assert(lists.take(0) =~= Seq::empty());
        assert(cycled(session, lists.take(0), reverse) == session);
    } else {
        lemma_cycled(session, lists, presses - 1, reverse);
        assert forall|id: isize| #[trigger] order.contains(id) <==> ids_of(list.windows).contains(
            id,
        ) by {
            assert(order.contains(id) <==> ids_of(lists[0].windows).contains(id));
        }
        cycling_order_is_stable(order, ids_of(list.windows));
    }
}

/// One way or the other, as many presses as the app has windows activate each of them
/// exactly once, and lead back to where they started. Each press brings its window to
/// the top, so the list of windows may be in another order at every press.
pub proof fn presses_visit_every_window_once(
    session: WindowsSession,
    lists: Seq<AppGroup>,
    reverse: bool,
    id: isize,
) -> (presses: nat)
    requires
        is_full_round(session, lists),
        ids_of(lists[0].windows).contains(id),
    ensures
        1 <= presses <= lists.len(),
        forall|p: int|
            1 <= p <= lists.len() ==> (active(#[trigger] cycled(session, lists.take(p), reverse))
                == id <==> p == presses),
        cycled(session, lists, reverse).cache->0.index == recalled(session, lists[0])->0.index,
        cycled(session, lists, reverse).cache->0.windows == next_order(session, lists[0]),
{
    let order = next_order(session, lists[0]);
    let start = recalled(session, lists[0])->0.index as int;
    let n = lists.len() as int;
    cycling_order_is_complete(recalled(session, lists[0])->0.windows, ids_of(lists[0].windows));
    assert(order.contains(id));
    let goal = choose|i: int| 0 <= i < order.len() && order[i] == id;
    lemma_cycled(session, lists, n, reverse);
    assert(lists.take(n) =~= lists);
    let presses = steps_to(start, n, goal, reverse);
    assert forall|p: int| 1 <= p <= lists.len() implies (active(
        #[trigger] cycled(session, lists.take(p), reverse),
    ) == id <==> p == presses) by {
        lemma_cycled(session, lists, p, reverse);
        lemma_steps_to(start, n, goal, p, reverse);
    }
    lemma_steps_to(start, n, goal, 1, reverse);
    presses as nat
}

/// Within one full round no window is activated twice.
pub proof fn presses_repeat_no_window(
    session: WindowsSession,
    lists: Seq<AppGroup>,
    reverse: bool,
    p: int,
    q: int,
)
    requires
        is_full_round(session, lists),
        1 <= p < q <= lists.len(),
    ensures
        active(cycled(session, lists.take(p), reverse)) != active(
            cycled(session, lists.take(q), reverse),
        ),
{
    lemma_cycled(session, lists, p, reverse);
    lemma_cycled(session, lists, q, reverse);
}

/// Where nothing is remembered of the app, because no cycle is known, the last one was
/// of another app, or it has just two windows, the switch goes to its second window and
/// remembers all of them as they lie, the top one as the start.
pub proof fn new_cycle_starts_below_the_top(
    session: WindowsSession,
    app: AppGroup,
    reverse: bool,
    k: int,
)
    requires
        app.windows.len() >= 2,
        session.cache is None || session.cache->0.key != app.key || app.windows.len() == 2,
        0 <= k < app.windows.len(),
    ensures
        has_target(session, app, reverse),
        target(session, app, reverse) == app.windows[1].id,
        ({
            let after = advanced(session, app, reverse);
            &&& !after.modifier_released
            &&& after.cache matches Some(c)
            &&& c.key == app.key
            &&& c.id == app.windows[0].id
            &&& c.index == 1
            &&& c.windows.len() == app.windows.len()
            &&& c.windows[k] == app.windows[k].id
        }),
{
}

/// After the modifier was released, the switch goes to the window from which the last
/// cycle of the app started, at `w`; where that is on top or gone, to the second window.
/// Either way a new cycle starts from the top window.
pub proof fn cycle_after_release_starts_from_the_top(
    session: WindowsSession,
    app: AppGroup,
    reverse: bool,
    w: int,
    k: int,
)
    requires
        app.windows.len() > 2,
        app.windows.len() <= usize::MAX,
        session.cache is Some,
        session.cache->0.key == app.key,
        session.modifier_released,
        0 <= w <= app.windows.len(),
        forall|v: int| 0 <= v < w ==> (#[trigger] app.windows[v]).id != session.cache->0.id,
        w < app.windows.len() ==> app.windows[w].id == session.cache->0.id,
        0 <= k < app.windows.len(),
    ensures
        ({
            let to = if 0 < w < app.windows.len() {
                w
            } else {
                1
            };
            let after = advanced(session, app, reverse);
            &&& has_target(session, app, reverse)
            &&& target(session, app, reverse) == app.windows[to].id
            &&& !after.modifier_released
            &&& after.cache matches Some(c)
            &&& c.key == app.key
            &&& c.id == app.windows[0].id
            &&& c.index == to
            &&& c.windows.len() == app.windows.len()
            &&& c.windows[k] == app.windows[k].id
        }),
{
    let live = ids_of(app.windows);
    let id = session.cache->0.id;
    assert forall|v: int| 0 <= v < w implies live[v] != id by {
        assert(app.windows[v].id != id);
    }
    if w < app.windows.len() {
        assert(live[w] == id);
        live.index_of_first_ensures(id);
        assert(live.index_of_first(id)->0 == w);
    } else if live.contains(id) {
        let v = choose|v: int| 0 <= v < live.len() && live[v] == id;
        assert(app.windows[v].id == id);
    }
}

/// While the modifier stays down, the switch goes one further in the remembered order,
/// around its ends, or one back. The start of the cycle stays.
pub proof fn cycle_goes_on_by_one(session: WindowsSession, app: AppGroup, reverse: bool)
    requires
        app.windows.len() > 2,
        app.windows.len() <= usize::MAX,
        session.cache is Some,
        session.cache->0.key == app.key,
        !session.modifier_released,
        has_target(session, app, reverse),
    ensures
        ({
            let c = session.cache->0;
            let len = app.windows.len();
            let after = advanced(session, app, reverse);
            &&& !after.modifier_released
            &&& after.cache matches Some(d)
            &&& d.key == app.key
            &&& d.id == c.id
            &&& d.windows == merged(c.windows, ids_of(app.windows))
            &&& target(session, app, reverse) == d.windows[d.index as int]
            &&& reverse && c.index == 0 ==> d.index == len - 1
            &&& reverse && c.index > 0 ==> d.index == c.index - 1
            &&& !reverse && c.index + 1 < len ==> d.index == c.index + 1
            &&& !reverse && c.index + 1 >= len ==> d.index == 0
        }),
{
    cycling_order_is_complete(session.cache->0.windows, ids_of(app.windows));
}

proof fn lemma_left_stays(cached: Seq<isize>, live: Seq<isize>, p: int)
    requires
        live.no_duplicates(),
        0 <= p < sorted_out(cached, live).1.len(),
        !cached.contains(live[p]),
    ensures
        p < live.len(),
        sorted_out(cached, live).1[p] == live[p],
    decreases cached.len(),
{
    lemma_sorted_out(cached, live, 0);
    if cached.len() > 0 {
        let rest = cached.drop_last();
        let id = cached.last();
        let left = sorted_out(rest, live).1;
        lemma_sorted_out(rest, live, id);
        assert(cached =~= rest.push(id));
        lemma_push_contains(rest, id, live[p]);
        if left.contains(id) {
            lemma_swap_removed(left, id, 0);
        }
        lemma_left_stays(rest, live, p);
        if left.contains(id) {
            assert(cached[cached.len() - 1] == id);
            assert(live[p] != id);
            assert(left[left.index_of(id)] == id);
            assert(left.index_of(id) != p);
        }
    }
}

/// Windows opened during a cycle come behind the known ones, at the places at which they
/// lie, but for the last ones, which fill the places that known windows leave.
pub proof fn new_windows_stay_in_place(cached: Seq<isize>, live: Seq<isize>, p: int)
    requires
        live.no_duplicates(),
        0 <= p,
        p + distinct(cached).filter(|x: isize| live.contains(x)).len() < live.len(),
        !cached.contains(live[p]),
    ensures
        merged(cached, live)[p + distinct(cached).filter(|x: isize| live.contains(x)).len()]
            == live[p],
{
    lemma_distinct(live, 0);
    lemma_kept_of_any(cached, live);
    lemma_sorted_out(cached, live, 0);
    lemma_left_stays(cached, live, p);
}

/// While the modifier stays down, a switch has a window to go to, but for a step back
/// that starts beyond the last window.
pub proof fn ongoing_cycle_has_a_target(session: WindowsSession, app: AppGroup, reverse: bool)
    requires
        app.windows.len() > 2,
        ids_of(app.windows).no_duplicates(),
        session.cache is Some,
        session.cache->0.key == app.key,
        !session.modifier_released,
    ensures
        has_target(session, app, reverse) <==> !(reverse && session.cache->0.index
            > app.windows.len()),
{
    cycling_order_is_complete(session.cache->0.windows, ids_of(app.windows));
}

/// The state of the cycle is modelled field by field.
pub proof fn cycle_is_modelled_field_by_field(state: SwitchWindowsState)
    ensures
        state@.modifier_released == state.modifier_released,
        state.cache is None <==> state@.cache is None,
        state.cache matches Some(c) ==> state@.cache == Some(
            CacheModel { key: c.key@, id: c.id, index: c.index, windows: c.windows@ },
        ),
{
}

} // verus!
