//! Most-recently-used (MRU) ordering helpers.
//!
//! These know nothing about windows, so the ordering that drives both the app
//! switcher and the choice of a window within an app can be stated, proved and
//! tested on its own.
//!
//! An element type comes with its own `==`. The contracts below speak of any
//! relation `eq` that decides what `==` returns on that type; `spec_eq` is that
//! relation for the types whose `==` is specified by `eq_spec`. For a type of whose
//! `==` nothing is known, they give the result by what `==` returned.
use crate::seqs::{
    at_positions, lemma_concat_contains, lemma_filter_all, lemma_filter_congruence,
    lemma_filter_contains, lemma_filter_no_duplicates, lemma_filter_none, lemma_filter_positions,
    lemma_filter_take, lemma_filters_commute, lemma_push_contains, marks,
};
use vstd::prelude::*;
use vstd::relations::equivalence_relation;
use vstd::std_specs::cmp::PartialEqSpec;

verus! {

/// `eq` says what `==` returns on values of type `T`.
pub open spec fn decides_eq<T: PartialEq>(eq: spec_fn(T, T) -> bool) -> bool {
    forall|a: T, b: T, r: bool| #[trigger] call_ensures(T::eq, (&a, &b), r) ==> r == eq(a, b)
}

/// The relation that `eq_spec` names, for the types that obey it.
pub open spec fn spec_eq<T: PartialEq>() -> spec_fn(T, T) -> bool {
    |a: T, b: T| a.eq_spec(&b)
}

/// Equality itself.
pub open spec fn same<T>() -> spec_fn(T, T) -> bool {
    |a: T, b: T| a == b
}

/// A clone compares as the value that was cloned does.
pub open spec fn clones_compare_alike<T: Clone>(eq: spec_fn(T, T) -> bool) -> bool {
    forall|a: T, b: T, x: T| #[trigger] cloned(a, b) ==> #[trigger] eq(b, x) == eq(a, x)
}

/// Some element of `items` equals `item`.
pub open spec fn occurs<T>(items: Seq<T>, item: T, eq: spec_fn(T, T) -> bool) -> bool {
    exists|i: int| 0 <= i < items.len() && #[trigger] eq(items[i], item)
}

/// Where equality decides, an item occurs exactly if the sequence contains it.
pub proof fn lemma_occurs_same<T>(items: Seq<T>, item: T)
    ensures
        occurs(items, item, same()) <==> items.contains(item),
{
    let eq = same::<T>();
    if items.contains(item) {
        let i = choose|i: int| 0 <= i < items.len() && items[i] == item;
        assert(eq(items[i], item));
    }
}

/// `mru` with `item` in front and nowhere else.
pub open spec fn promoted<T>(mru: Seq<T>, item: T, eq: spec_fn(T, T) -> bool) -> Seq<T> {
    seq![item] + mru.filter(|x: T| !eq(x, item))
}

/// The entries of `mru` that are in `present`, in the order of `mru`.
pub open spec fn retained<T>(mru: Seq<T>, present: Seq<T>, eq: spec_fn(T, T) -> bool) -> Seq<T> {
    mru.filter(|x: T| occurs(present, x, eq))
}

/// `known`, followed by the items of `present` that are not in it yet, each once.
pub open spec fn with_newcomers<T>(
    known: Seq<T>,
    present: Seq<T>,
    eq: spec_fn(T, T) -> bool,
) -> Seq<T>
    decreases present.len(),
{
    if present.len() == 0 {
        known
    } else {
        let so_far = with_newcomers(known, present.drop_last(), eq);
        if occurs(so_far, present.last(), eq) {
            so_far
        } else {
            so_far.push(present.last())
        }
    }
}

/// The display order of `present`: known items first, in MRU order, then the others.
pub open spec fn ordered<T>(mru: Seq<T>, present: Seq<T>, eq: spec_fn(T, T) -> bool) -> Seq<T> {
    with_newcomers(retained(mru, present, eq), present, eq)
}

/// `found` is the first index of a candidate equal to the earliest entry of
/// `mru` that any candidate equals; `None` when there is no such entry.
pub open spec fn is_most_recent<T>(
    mru: Seq<T>,
    candidates: Seq<T>,
    eq: spec_fn(T, T) -> bool,
    found: Option<usize>,
) -> bool {
    match found {
        Some(i) => exists|m: int|
            {
                &&& 0 <= m < mru.len()
                &&& i < candidates.len()
                &&& eq(candidates[i as int], #[trigger] mru[m])
                &&& forall|j: int| 0 <= j < i ==> !eq(#[trigger] candidates[j], mru[m])
                &&& forall|k: int| 0 <= k < m ==> !occurs(candidates, #[trigger] mru[k], eq)
            },
        None => forall|k: int| 0 <= k < mru.len() ==> !occurs(candidates, #[trigger] mru[k], eq),
    }
}

/// `==` may return `r` on `a` and `b`.
pub open spec fn may_be<T: PartialEq>(a: T, b: T, r: bool) -> bool {
    call_ensures(T::eq, (&a, &b), r)
}

/// A search through `items` for `item` went by what `==` returned: nowhere before
/// the hit, if there was one, did it return true.
pub open spec fn searched<T: PartialEq>(items: Seq<T>, item: T, found: bool) -> bool {
    if found {
        exists|i: int|
            {
                &&& 0 <= i < items.len()
                &&& #[trigger] may_be(items[i], item, true)
                &&& forall|j: int| 0 <= j < i ==> #[trigger] may_be(items[j], item, false)
            }
    } else {
        forall|j: int| 0 <= j < items.len() ==> #[trigger] may_be(items[j], item, false)
    }
}

/// The elements of `items` that are picked, in order.
pub open spec fn selected<T>(items: Seq<T>, picks: Seq<bool>) -> Seq<T>
    decreases items.len(),
{
    if items.len() == 0 {
        Seq::empty()
    } else {
        let so_far = selected(items.drop_last(), picks.drop_last());
        if picks.last() {
            so_far.push(items.last())
        } else {
            so_far
        }
    }
}

/// `after` is `item`, followed by what `==` told from it in `before`, in order.
pub open spec fn is_promotion<T: PartialEq>(before: Seq<T>, item: T, after: Seq<T>) -> bool {
    exists|picks: Seq<bool>|
        {
            &&& picks.len() == before.len()
            &&& forall|j: int|
                0 <= j < before.len() ==> may_be(before[j], item, !#[trigger] picks[j])
            &&& after == seq![item] + #[trigger] selected(before, picks)
        }
}

/// `after` is what a search through `present` found of `before`, in order.
pub open spec fn is_retention<T: PartialEq>(
    before: Seq<T>,
    present: Seq<T>,
    after: Seq<T>,
) -> bool {
    exists|picks: Seq<bool>|
        {
            &&& picks.len() == before.len()
            &&& forall|j: int|
                0 <= j < before.len() ==> searched(present, before[j], #[trigger] picks[j])
            &&& after == #[trigger] selected(before, picks)
        }
}

/// How many items are in the order before the `j`-th of `present` is looked at.
pub open spec fn size_before<T>(known: Seq<T>, present: Seq<T>, added: Seq<bool>, j: int) -> int {
    (known.len() + selected(present.take(j), added.take(j)).len()) as int
}

/// The `j`-th item of `present` was added unless a search through the result, as far as
/// it had come by then, found it.
pub open spec fn looked_up<T: PartialEq>(
    known: Seq<T>,
    present: Seq<T>,
    added: Seq<bool>,
    result: Seq<T>,
    j: int,
) -> bool {
    let size = size_before(known, present, added, j);
    size <= result.len() && searched(result.take(size), present[j], !added[j])
}

/// `result` holds clones of what a search through `present` found of `mru`, in order,
/// followed by those items of `present` that were not found in the result as far as
/// it had come.
pub open spec fn is_display_order<T: Clone + PartialEq>(
    mru: Seq<T>,
    present: Seq<T>,
    result: Seq<T>,
) -> bool {
    exists|picks: Seq<bool>, added: Seq<bool>|
        {
            let known = #[trigger] selected(mru, picks);
            &&& picks.len() == mru.len()
            &&& added.len() == present.len()
            &&& forall|j: int|
                0 <= j < mru.len() ==> searched(present, mru[j], #[trigger] picks[j])
            &&& all_cloned(known + #[trigger] selected(present, added), result)
            &&& forall|j: int|
                0 <= j < present.len() ==> #[trigger] looked_up(known, present, added, result, j)
        }
}

/// `found` is the first hit of a search through `candidates` for the first entry of
/// `mru` for which there is one.
pub open spec fn is_first_hit<T: PartialEq>(
    mru: Seq<T>,
    candidates: Seq<T>,
    found: Option<usize>,
) -> bool {
    match found {
        Some(i) => exists|m: int|
            {
                &&& 0 <= m < mru.len()
                &&& i < candidates.len()
                &&& may_be(candidates[i as int], #[trigger] mru[m], true)
                &&& forall|j: int|
                    0 <= j < i ==> may_be(#[trigger] candidates[j], mru[m], false)
                &&& forall|k: int| 0 <= k < m ==> searched(candidates, #[trigger] mru[k], false)
            },
        None => forall|k: int|
            0 <= k < mru.len() ==> searched(candidates, #[trigger] mru[k], false),
    }
}

proof fn lemma_selected_push<T>(items: Seq<T>, picks: Seq<bool>, k: int, pick: bool)
    requires
        0 <= k < items.len(),
        picks.len() == k,
    ensures
        selected(items.take(k + 1), picks.push(pick)) == (if pick {
            selected(items.take(k), picks).push(items[k])
        } else {
            selected(items.take(k), picks)
        }),
{
    assert(items.take(k + 1).drop_last() =~= items.take(k));
    assert(picks.push(pick).drop_last() =~= picks);
}

/// Whether some element of `items` equals `item`.
pub(crate) fn contains<T: PartialEq>(items: &[T], item: &T) -> (found: bool)
    ensures
        searched(items@, *item, found),
        forall|eq: spec_fn(T, T) -> bool| #[trigger]
            decides_eq(eq) ==> found == occurs(items@, *item, eq),
{
    let mut i: usize = 0;
    while i < items.len()
        invariant
            i <= items@.len(),
            forall|eq: spec_fn(T, T) -> bool| #[trigger]
                decides_eq(eq) ==> forall|j: int| 0 <= j < i ==> !#[trigger] eq(items@[j], *item),
            forall|j: int| 0 <= j < i ==> #[trigger] may_be(items@[j], *item, false),
        decreases items@.len() - i,
    {
        let same = items[i] == *item;
        assert(call_ensures(T::eq, (&items@[i as int], item), same));
        assert(may_be(items@[i as int], *item, same));
        if same {
            return true;
        }
        i += 1;
    }
    false
}

/// Moves `item` to the front of `mru`, removing any existing occurrence so that
/// it never appears twice. The front is the most-recently-used position.
pub fn promote<T: PartialEq>(mru: &mut Vec<T>, item: T)
    ensures
        final(mru)@.len() > 0,
        final(mru)@[0] == item,
        is_promotion(old(mru)@, item, final(mru)@),
        forall|eq: spec_fn(T, T) -> bool| #[trigger]
            decides_eq(eq) ==> final(mru)@ == promoted(old(mru)@, item, eq),
        T::obeys_eq_spec() ==> final(mru)@ == promoted(old(mru)@, item, spec_eq()),
{
    let ghost before = mru@;
    let ghost mut k: int = 0;
    let ghost mut picks: Seq<bool> = Seq::empty();
    let mut i: usize = 0;
    assert forall|eq: spec_fn(T, T) -> bool| #[trigger] decides_eq(eq) implies before.take(
        0,
    ).filter(|x: T| !eq(x, item)).len() == 0 by {
        reveal(Seq::filter);
    }
    while i < mru.len()
        invariant
            0 <= k <= before.len(),
            i <= mru@.len(),
            mru@.len() - i == before.len() - k,
            mru@.skip(i as int) == before.skip(k),
            forall|eq: spec_fn(T, T) -> bool| #[trigger]
                decides_eq(eq) ==> mru@.take(i as int) == before.take(k).filter(
                    |x: T| !eq(x, item),
                ),
            picks.len() == k,
            forall|j: int| 0 <= j < k ==> may_be(before[j], item, !#[trigger] picks[j]),
            mru@.take(i as int) == selected(before.take(k), picks),
        decreases mru@.len() - i,
    {
        let ghost head = mru@.take(i as int);
        let ghost rest = mru@.skip(i as int);
        assert(rest[0] == before.skip(k)[0]);
        assert(rest.drop_first() =~= before.skip(k + 1));
        let same = mru[i] == item;
        assert(call_ensures(T::eq, (&before[k], &item), same));
        proof {
            lemma_selected_push(before, picks, k, !same);
        }
        assert forall|eq: spec_fn(T, T) -> bool| #[trigger] decides_eq(eq) implies before.take(
            k + 1,
        ).filter(|x: T| !eq(x, item)) == (if same {
            head
        } else {
            head.push(before[k])
        }) by {
            lemma_filter_take(before, k, |x: T| !eq(x, item));
        }
        if same {
            mru.remove(i);
            assert(mru@.take(i as int) =~= head);
            assert(mru@.skip(i as int) =~= rest.drop_first());
        } else {
            i += 1;
            assert(mru@.take(i as int) =~= head.push(before[k]));
            assert(mru@.skip(i as int) =~= rest.drop_first());
        }
        proof {
            picks = picks.push(!same);
            k = k + 1;
        }
    }
    assert(before.take(k) =~= before);
    assert(mru@.take(i as int) =~= mru@);
    let ghost rest = mru@;
    mru.insert(0, item);
    proof {
        assert(mru@ =~= seq![item] + rest);
        assert(rest == selected(before, picks));
        assert forall|eq: spec_fn(T, T) -> bool| #[trigger] decides_eq(eq) implies mru@
            == promoted(before, item, eq) by {
            assert(mru@ =~= seq![item] + before.filter(|x: T| !eq(x, item)));
        }
        if T::obeys_eq_spec() {
            assert(decides_eq(spec_eq::<T>()));
        }
    }
}

/// Drops every entry of `mru` that is not in `present`. Used to forget apps or
/// windows that have since been closed.
pub fn retain_present<T: PartialEq>(mru: &mut Vec<T>, present: &[T])
    ensures
        is_retention(old(mru)@, present@, final(mru)@),
        forall|eq: spec_fn(T, T) -> bool| #[trigger]
            decides_eq(eq) ==> final(mru)@ == retained(old(mru)@, present@, eq),
        T::obeys_eq_spec() ==> final(mru)@ == retained(old(mru)@, present@, spec_eq()),
{
    let ghost before = mru@;
    let ghost mut k: int = 0;
    let ghost mut picks: Seq<bool> = Seq::empty();
    let mut i: usize = 0;
    assert forall|eq: spec_fn(T, T) -> bool| #[trigger] decides_eq(eq) implies retained(
        before.take(0),
        present@,
        eq,
    ).len() == 0 by {
        reveal(Seq::filter);
    }
    while i < mru.len()
        invariant
            0 <= k <= before.len(),
            i <= mru@.len(),
            mru@.len() - i == before.len() - k,
            mru@.skip(i as int) == before.skip(k),
            forall|eq: spec_fn(T, T) -> bool| #[trigger]
                decides_eq(eq) ==> mru@.take(i as int) == retained(before.take(k), present@, eq),
            picks.len() == k,
            forall|j: int| 0 <= j < k ==> searched(present@, before[j], #[trigger] picks[j]),
            mru@.take(i as int) == selected(before.take(k), picks),
        decreases mru@.len() - i,
    {
        let ghost head = mru@.take(i as int);
        let ghost rest = mru@.skip(i as int);
        assert(rest[0] == before.skip(k)[0]);
        assert(rest.drop_first() =~= before.skip(k + 1));
        let keep = contains(present, &mru[i]);
        proof {
            lemma_selected_push(before, picks, k, keep);
        }
        assert forall|eq: spec_fn(T, T) -> bool| #[trigger] decides_eq(eq) implies retained(
            before.take(k + 1),
            present@,
            eq,
        ) == (if keep {
            head.push(before[k])
        } else {
            head
        }) by {
            lemma_filter_take(before, k, |x: T| occurs(present@, x, eq));
        }
        if keep {
            i += 1;
            assert(mru@.take(i as int) =~= head.push(before[k]));
            assert(mru@.skip(i as int) =~= rest.drop_first());
        } else {
            mru.remove(i);
            assert(mru@.take(i as int) =~= head);
            assert(mru@.skip(i as int) =~= rest.drop_first());
        }
        proof {
            picks = picks.push(keep);
            k = k + 1;
        }
    }
    assert(before.take(k) =~= before);
    assert(mru@.take(i as int) =~= mru@);
    proof {
        assert(mru@ == selected(before, picks));
        if T::obeys_eq_spec() {
            assert(decides_eq(spec_eq::<T>()));
        }
    }
}

/// `copies` holds a clone of each element of `items`, in order.
pub open spec fn all_cloned<T: Clone>(items: Seq<T>, copies: Seq<T>) -> bool {
    &&& copies.len() == items.len()
    &&& forall|i: int| 0 <= i < items.len() ==> cloned(#[trigger] items[i], copies[i])
}

proof fn lemma_clones_occur_alike<T: Clone>(
    items: Seq<T>,
    copies: Seq<T>,
    item: T,
    eq: spec_fn(T, T) -> bool,
)
    requires
        all_cloned(items, copies),
        clones_compare_alike(eq),
    ensures
        occurs(copies, item, eq) == occurs(items, item, eq),
{
    assert forall|i: int| 0 <= i < items.len() implies eq(copies[i], item) == #[trigger] eq(
        items[i],
        item,
    ) by {
        assert(cloned(items[i], copies[i]));
    }
    if occurs(copies, item, eq) {
        let i = choose|i: int| 0 <= i < copies.len() && #[trigger] eq(copies[i], item);
        assert(eq(items[i], item));
    }
    if occurs(items, item, eq) {
        let i = choose|i: int| 0 <= i < items.len() && #[trigger] eq(items[i], item);
        assert(eq(copies[i], item));
    }
}

/// `result` is the display order as far as the first `j` items of `present` go.
#[verifier::opaque]
spec fn shows<T: Clone + PartialEq>(
    known: Seq<T>,
    present: Seq<T>,
    added: Seq<bool>,
    j: int,
    result: Seq<T>,
) -> bool {
    &&& added.len() == j
    &&& all_cloned(known + selected(present.take(j), added), result)
    &&& forall|h: int| 0 <= h < j ==> #[trigger] looked_up(known, present, added, result, h)
}

proof fn lemma_shows_known<T: Clone + PartialEq>(known: Seq<T>, present: Seq<T>, result: Seq<T>)
    requires
        all_cloned(known, result),
    ensures
        shows(known, present, Seq::empty(), 0, result),
{
    reveal(shows);
    assert(known + selected(present.take(0), Seq::empty()) =~= known);
}

proof fn lemma_more_clones<T: Clone>(
    listed: Seq<T>,
    item: T,
    shown: Seq<T>,
    result: Seq<T>,
)
    requires
        all_cloned(listed, shown),
        result.len() > 0,
        result == shown.push(result.last()),
        cloned(item, result.last()),
    ensures
        all_cloned(listed.push(item), result),
{
    let more = listed.push(item);
    assert forall|i: int| 0 <= i < more.len() implies cloned(#[trigger] more[i], result[i]) by {
        if i < listed.len() {
            assert(cloned(listed[i], shown[i]));
        }
    }
}

proof fn lemma_sizes_stay<T>(
    known: Seq<T>,
    present: Seq<T>,
    added: Seq<bool>,
    pick: bool,
    shown: Seq<T>,
    result: Seq<T>,
    h: int,
)
    requires
        0 <= h <= added.len() < present.len(),
        size_before(known, present, added, h) <= shown.len() <= result.len(),
        result.take(shown.len() as int) == shown,
    ensures
        size_before(known, present, added.push(pick), h) == size_before(known, present, added, h),
        result.take(size_before(known, present, added, h)) == shown.take(
            size_before(known, present, added, h),
        ),
{
    let size = size_before(known, present, added, h);
    assert(added.push(pick).take(h) =~= added.take(h));
    assert forall|i: int| 0 <= i < size implies result.take(size)[i] == shown.take(size)[i] by {
        assert(result.take(shown.len() as int)[i] == shown[i]);
    }
    assert(result.take(size) =~= shown.take(size));
}

proof fn lemma_shows_more<T: Clone + PartialEq>(
    known: Seq<T>,
    present: Seq<T>,
    added: Seq<bool>,
    j: int,
    shown: Seq<T>,
    result: Seq<T>,
    found: bool,
)
    requires
        0 <= j < present.len(),
        shows(known, present, added, j, shown),
        searched(shown, present[j], found),
        found ==> result == shown,
        !found ==> result.len() > 0 && result == shown.push(result.last()) && cloned(
            present[j],
            result.last(),
        ),
    ensures
        shows(known, present, added.push(!found), j + 1, result),
{
    reveal(shows);
    let more = added.push(!found);
    let listed = known + selected(present.take(j), added);
    assert(all_cloned(known + selected(present.take(j + 1), more), result)) by {
        lemma_selected_push(present, added, j, !found);
        if !found {
            lemma_more_clones(listed, present[j], shown, result);
            assert(known + selected(present.take(j + 1), more) =~= listed.push(present[j]));
        }
    }
    assert(result.take(shown.len() as int) =~= shown);
    assert(added.take(j) =~= added);
    assert(size_before(known, present, added, j) == shown.len());
    assert forall|h: int| 0 <= h < j + 1 implies #[trigger] looked_up(
        known,
        present,
        more,
        result,
        h,
    ) by {
        if h < j {
            assert(looked_up(known, present, added, shown, h));
        }
        lemma_sizes_stay(known, present, added, !found, shown, result, h);
        assert(shown.take(shown.len() as int) =~= shown);
    }
}

proof fn lemma_shows_all<T: Clone + PartialEq>(
    mru: Seq<T>,
    present: Seq<T>,
    picks: Seq<bool>,
    added: Seq<bool>,
    result: Seq<T>,
)
    requires
        picks.len() == mru.len(),
        forall|j: int| 0 <= j < mru.len() ==> searched(present, mru[j], #[trigger] picks[j]),
        shows(selected(mru, picks), present, added, present.len() as int, result),
    ensures
        is_display_order(mru, present, result),
{
    reveal(shows);
    assert(present.take(present.len() as int) =~= present);
    assert(all_cloned(selected(mru, picks) + selected(present, added), result));
}

/// Computes a display order for `present` items: entries already known in `mru`
/// come first (in MRU order), followed by any `present` items not yet in `mru`
/// (in their given order). Closed items in `mru` are dropped, so the result is
/// also the pruned, up-to-date MRU list.
pub fn order_by_mru<T: Clone + PartialEq>(mru: &[T], present: &[T]) -> (result: Vec<T>)
    ensures
        is_display_order(mru@, present@, result@),
        forall|eq: spec_fn(T, T) -> bool| #[trigger]
            decides_eq(eq) && clones_compare_alike(eq) ==> all_cloned(
                ordered(mru@, present@, eq),
                result@,
            ),
        T::obeys_eq_spec() && clones_compare_alike(spec_eq::<T>()) ==> all_cloned(
            ordered(mru@, present@, spec_eq()),
            result@,
        ),
{
    let mut result: Vec<T> = Vec::new();
    let ghost mut picks: Seq<bool> = Seq::empty();
    let ghost mut added: Seq<bool> = Seq::empty();
    let mut i: usize = 0;
    assert forall|eq: spec_fn(T, T) -> bool| #[trigger] decides_eq(eq) implies retained(
        mru@.take(0),
        present@,
        eq,
    ).len() == 0 by {
        reveal(Seq::filter);
    }
    while i < mru.len()
        invariant
            i <= mru@.len(),
            forall|eq: spec_fn(T, T) -> bool| #[trigger]
                decides_eq(eq) ==> all_cloned(retained(mru@.take(i as int), present@, eq), result@),
            picks.len() == i,
            forall|j: int| 0 <= j < i ==> searched(present@, mru@[j], #[trigger] picks[j]),
            all_cloned(selected(mru@.take(i as int), picks), result@),
        decreases mru@.len() - i,
    {
        let keep = contains(present, &mru[i]);
        proof {
            lemma_selected_push(mru@, picks, i as int, keep);
            picks = picks.push(keep);
        }
        assert forall|eq: spec_fn(T, T) -> bool| #[trigger] decides_eq(eq) implies retained(
            mru@.take(i + 1),
            present@,
            eq,
        ) == (if keep {
            retained(mru@.take(i as int), present@, eq).push(mru@[i as int])
        } else {
            retained(mru@.take(i as int), present@, eq)
        }) by {
            lemma_filter_take(mru@, i as int, |x: T| occurs(present@, x, eq));
        }
        if keep {
            result.push(mru[i].clone());
        }
        i += 1;
    }
    assert(mru@.take(i as int) =~= mru@);
    let ghost known_items = selected(mru@, picks);
    proof {
        lemma_shows_known(known_items, present@, result@);
    }
    let mut j: usize = 0;
    while j < present.len()
        invariant
            j <= present@.len(),
            forall|eq: spec_fn(T, T) -> bool| #[trigger]
                decides_eq(eq) && clones_compare_alike(eq) ==> all_cloned(
                    with_newcomers(
                        retained(mru@, present@, eq),
                        present@.take(j as int),
                        eq,
                    ),
                    result@,
                ),
            shows(known_items, present@, added, j as int, result@),
        decreases present@.len() - j,
    {
        let ghost shown = result@;
        let known = contains(result.as_slice(), &present[j]);
        assert forall|eq: spec_fn(T, T) -> bool| #[trigger] decides_eq(eq) && clones_compare_alike(
            eq,
        ) implies ({
            let known_items = retained(mru@, present@, eq);
            let so_far = with_newcomers(known_items, present@.take(j as int), eq);
            with_newcomers(known_items, present@.take(j + 1), eq) == (if known {
                so_far
            } else {
                so_far.push(present@[j as int])
            })
        }) by {
            assert(present@.take(j + 1).drop_last() =~= present@.take(j as int));
            lemma_clones_occur_alike(
                with_newcomers(retained(mru@, present@, eq), present@.take(j as int), eq),
                result@,
                present@[j as int],
                eq,
            );
        }
        if !known {
            result.push(present[j].clone());
        }
        proof {
            lemma_shows_more(known_items, present@, added, j as int, shown, result@, known);
            added = added.push(!known);
        }
        j += 1;
    }
    assert(present@.take(j as int) =~= present@);
    proof {
        lemma_shows_all(mru@, present@, picks, added, result@);
        if T::obeys_eq_spec() {
            assert(decides_eq(spec_eq::<T>()));
        }
    }
    result
}

/// Returns the index into `candidates` of the item that appears earliest (most
/// recent) in `mru`, or `None` when no candidate is present in `mru`.
pub fn most_recent_index<T: PartialEq>(mru: &[T], candidates: &[T]) -> (found: Option<usize>)
    ensures
        found matches Some(i) ==> i < candidates@.len(),
        is_first_hit(mru@, candidates@, found),
        forall|eq: spec_fn(T, T) -> bool| #[trigger]
            decides_eq(eq) ==> is_most_recent(mru@, candidates@, eq, found),
        T::obeys_eq_spec() ==> is_most_recent(mru@, candidates@, spec_eq(), found),
{
    proof {
        if T::obeys_eq_spec() {
            assert(decides_eq(spec_eq::<T>()));
        }
    }
    let mut m: usize = 0;
    while m < mru.len()
        invariant
            m <= mru@.len(),
            forall|k: int| 0 <= k < m ==> searched(candidates@, #[trigger] mru@[k], false),
            T::obeys_eq_spec() ==> decides_eq(spec_eq::<T>()),
            forall|eq: spec_fn(T, T) -> bool| #[trigger]
                decides_eq(eq) ==> forall|k: int|
                    0 <= k < m ==> !occurs(candidates@, #[trigger] mru@[k], eq),
        decreases mru@.len() - m,
    {
        let mut i: usize = 0;
        while i < candidates.len()
            invariant
                m < mru@.len(),
                i <= candidates@.len(),
                forall|k: int| 0 <= k < m ==> searched(candidates@, #[trigger] mru@[k], false),
                forall|j: int|
                    0 <= j < i ==> may_be(#[trigger] candidates@[j], mru@[m as int], false),
                T::obeys_eq_spec() ==> decides_eq(spec_eq::<T>()),
                forall|eq: spec_fn(T, T) -> bool| #[trigger]
                    decides_eq(eq) ==> forall|k: int|
                        0 <= k < m ==> !occurs(candidates@, #[trigger] mru@[k], eq),
                forall|eq: spec_fn(T, T) -> bool| #[trigger]
                    decides_eq(eq) ==> forall|j: int|
                        0 <= j < i ==> !eq(#[trigger] candidates@[j], mru@[m as int]),
            decreases candidates@.len() - i,
        {
            let same = candidates[i] == mru[m];
            assert(call_ensures(T::eq, (&candidates@[i as int], &mru@[m as int]), same));
            assert(may_be(candidates@[i as int], mru@[m as int], same));
            if same {
                return Some(i);
            }
            i += 1;
        }
        m += 1;
    }
    None
}

/// Promoting keeps a list free of duplicates.
pub proof fn lemma_promoted_no_duplicates<T>(mru: Seq<T>, item: T)
    requires
        mru.no_duplicates(),
    ensures
        promoted(mru, item, same()).no_duplicates(),
{
    let others = |x: T| !same::<T>()(x, item);
    lemma_filter_no_duplicates(mru, others);
    let rest = mru.filter(others);
    assert forall|i: int| 0 <= i < rest.len() implies #[trigger] rest[i] != item by {
        assert(rest.contains(rest[i]));
        lemma_filter_contains(mru, others, rest[i]);
    }
}

proof fn lemma_with_newcomers_no_duplicates<T>(known: Seq<T>, present: Seq<T>)
    requires
        known.no_duplicates(),
    ensures
        with_newcomers(known, present, same()).no_duplicates(),
    decreases present.len(),
{
    if present.len() > 0 {
        let rest = present.drop_last();
        lemma_with_newcomers_no_duplicates(known, rest);
        let so_far = with_newcomers(known, rest, same());
        lemma_occurs_same(so_far, present.last());
    }
}

proof fn lemma_with_newcomers_contains<T>(known: Seq<T>, present: Seq<T>, x: T)
    ensures
        with_newcomers(known, present, same()).contains(x) <==> known.contains(x)
            || present.contains(x),
    decreases present.len(),
{
    if present.len() > 0 {
        let rest = present.drop_last();
        lemma_with_newcomers_contains(known, rest, x);
        let so_far = with_newcomers(known, rest, same());
        lemma_occurs_same(so_far, present.last());
        assert(present =~= rest.push(present.last()));
        lemma_push_contains(rest, present.last(), x);
        lemma_push_contains(so_far, present.last(), x);
    }
}

/// The display order holds exactly the items that are present, and, where the MRU
/// list has no duplicates, none of them twice.
pub proof fn order_is_complete<T>(mru: Seq<T>, present: Seq<T>, x: T)
    ensures
        ordered(mru, present, same()).contains(x) <==> present.contains(x),
        mru.no_duplicates() ==> ordered(mru, present, same()).no_duplicates(),
{
    let is_present = |y: T| occurs(present, y, same());
    lemma_with_newcomers_contains(retained(mru, present, same()), present, x);
    lemma_filter_contains(mru, is_present, x);
    lemma_occurs_same(present, x);
    if mru.no_duplicates() {
        lemma_filter_no_duplicates(mru, is_present);
        lemma_with_newcomers_no_duplicates(retained(mru, present, same()), present);
    }
}

/// A promoted item is in front, and nothing behind it equals it.
pub proof fn promoted_item_is_in_front_only<T>(
    mru: Seq<T>,
    item: T,
    eq: spec_fn(T, T) -> bool,
    i: int,
)
    requires
        0 < i < promoted(mru, item, eq).len(),
    ensures
        promoted(mru, item, eq)[0] == item,
        !eq(promoted(mru, item, eq)[i], item),
{
    let others = |x: T| !eq(x, item);
    let rest = mru.filter(others);
    assert(rest.contains(rest[i - 1]));
    lemma_filter_contains(mru, others, rest[i - 1]);
}

/// Promoting an item again changes nothing.
pub proof fn promoting_again_changes_nothing<T>(mru: Seq<T>, item: T, eq: spec_fn(T, T) -> bool)
    requires
        eq(item, item),
    ensures
        promoted(promoted(mru, item, eq), item, eq) == promoted(mru, item, eq),
{
    let others = |x: T| !eq(x, item);
    let rest = mru.filter(others);
    lemma_filter_none(seq![item], others);
    assert forall|j: int| 0 <= j < rest.len() implies others(#[trigger] rest[j]) by {
        assert(rest.contains(rest[j]));
        lemma_filter_contains(mru, others, rest[j]);
    }
    lemma_filter_all(rest, others);
    Seq::filter_distributes_over_add(seq![item], rest, others);
    assert(promoted(promoted(mru, item, eq), item, eq) =~= promoted(mru, item, eq));
}

/// An item that does not equal itself is added each time.
pub proof fn promoting_what_equals_nothing_adds_it<T>(
    mru: Seq<T>,
    item: T,
    eq: spec_fn(T, T) -> bool,
)
    requires
        !eq(item, item),
    ensures
        promoted(promoted(mru, item, eq), item, eq) == seq![item] + promoted(mru, item, eq),
{
    let others = |x: T| !eq(x, item);
    let once = promoted(mru, item, eq);
    assert forall|j: int| 0 <= j < once.len() implies others(#[trigger] once[j]) by {
        if j > 0 {
            promoted_item_is_in_front_only(mru, item, eq, j);
        }
    }
    lemma_filter_all(once, others);
}

/// Promoting loses nothing: what is in the list afterwards is the item and what
/// was in it before.
pub proof fn promoting_loses_nothing<T>(mru: Seq<T>, item: T, x: T)
    ensures
        promoted(mru, item, same()).contains(x) <==> x == item || mru.contains(x),
{
    let others = |y: T| !same::<T>()(y, item);
    lemma_filter_contains(mru, others, x);
    lemma_concat_contains(seq![item], mru.filter(others), x);
    assert(seq![item].contains(x) <==> x == item) by {
        assert(seq![item][0] == item);
    }
}

/// Closed entries are forgotten, open ones are kept, and forgetting again changes
/// nothing.
pub proof fn retaining_keeps_what_is_present<T>(mru: Seq<T>, present: Seq<T>, x: T)
    ensures
        retained(mru, present, same()).contains(x) <==> mru.contains(x) && present.contains(x),
        retained(retained(mru, present, same()), present, same()) == retained(
            mru,
            present,
            same(),
        ),
{
    let is_present = |y: T| occurs(present, y, same());
    let kept = retained(mru, present, same());
    lemma_filter_contains(mru, is_present, x);
    lemma_occurs_same(present, x);
    assert forall|j: int| 0 <= j < kept.len() implies is_present(#[trigger] kept[j]) by {
        assert(kept.contains(kept[j]));
        lemma_filter_contains(mru, is_present, kept[j]);
    }
    lemma_filter_all(kept, is_present);
}

proof fn lemma_with_newcomers_prefix<T>(known: Seq<T>, present: Seq<T>, eq: spec_fn(T, T) -> bool)
    ensures
        known.len() <= with_newcomers(known, present, eq).len(),
        with_newcomers(known, present, eq).take(known.len() as int) == known,
    decreases present.len(),
{
    if present.len() == 0 {
        assert(known.take(known.len() as int) =~= known);
    } else {
        lemma_with_newcomers_prefix(known, present.drop_last(), eq);
        let so_far = with_newcomers(known, present.drop_last(), eq);
        assert(so_far.push(present.last()).take(known.len() as int) =~= so_far.take(
            known.len() as int,
        ));
    }
}

/// The items known already come first, in MRU order.
pub proof fn order_keeps_known_items_first<T>(
    mru: Seq<T>,
    present: Seq<T>,
    eq: spec_fn(T, T) -> bool,
)
    ensures
        retained(mru, present, eq).len() <= ordered(mru, present, eq).len(),
        ordered(mru, present, eq).take(retained(mru, present, eq).len() as int) == retained(
            mru,
            present,
            eq,
        ),
{
    lemma_with_newcomers_prefix(retained(mru, present, eq), present, eq);
}

proof fn lemma_no_newcomers<T>(known: Seq<T>, present: Seq<T>)
    requires
        forall|j: int| 0 <= j < present.len() ==> known.contains(#[trigger] present[j]),
    ensures
        with_newcomers(known, present, same()) == known,
    decreases present.len(),
{
    if present.len() > 0 {
        let rest = present.drop_last();
        assert forall|j: int| 0 <= j < rest.len() implies known.contains(#[trigger] rest[j]) by {
            assert(rest[j] == present[j]);
        }
        lemma_no_newcomers(known, rest);
        assert(known.contains(present[present.len() - 1]));
        lemma_occurs_same(known, present.last());
    }
}

/// The display order is itself an up-to-date MRU list: ordering by it gives it back.
pub proof fn order_is_an_mru_list<T>(mru: Seq<T>, present: Seq<T>)
    ensures
        ordered(ordered(mru, present, same()), present, same()) == ordered(mru, present, same()),
{
    let order = ordered(mru, present, same());
    let is_present = |y: T| occurs(present, y, same());
    assert forall|j: int| 0 <= j < order.len() implies is_present(#[trigger] order[j]) by {
        assert(order.contains(order[j]));
        order_is_complete(mru, present, order[j]);
        lemma_occurs_same(present, order[j]);
    }
    lemma_filter_all(order, is_present);
    assert forall|j: int| 0 <= j < present.len() implies order.contains(#[trigger] present[j]) by {
        assert(present.contains(present[j]));
        order_is_complete(mru, present, present[j]);
    }
    lemma_no_newcomers(order, present);
}

/// There is only one most recent candidate.
pub proof fn most_recent_is_unique<T>(
    mru: Seq<T>,
    candidates: Seq<T>,
    eq: spec_fn(T, T) -> bool,
    a: Option<usize>,
    b: Option<usize>,
)
    requires
        is_most_recent(mru, candidates, eq, a),
        is_most_recent(mru, candidates, eq, b),
    ensures
        a == b,
{
    if a is Some {
        lemma_most_recent_alike(mru, candidates, eq, a->0, b);
    } else if b is Some {
        lemma_most_recent_alike(mru, candidates, eq, b->0, a);
    }
}

proof fn lemma_most_recent_alike<T>(
    mru: Seq<T>,
    candidates: Seq<T>,
    eq: spec_fn(T, T) -> bool,
    i: usize,
    other: Option<usize>,
)
    requires
        is_most_recent(mru, candidates, eq, Some(i)),
        is_most_recent(mru, candidates, eq, other),
    ensures
        other == Some(i),
{
    let m = choose|m: int|
        {
            &&& 0 <= m < mru.len()
            &&& i < candidates.len()
            &&& eq(candidates[i as int], #[trigger] mru[m])
            &&& forall|j: int| 0 <= j < i ==> !eq(#[trigger] candidates[j], mru[m])
            &&& forall|k: int| 0 <= k < m ==> !occurs(candidates, #[trigger] mru[k], eq)
        };
    assert(occurs(candidates, mru[m], eq)) by {
        assert(eq(candidates[i as int], mru[m]));
    }
    match other {
        None => {},
        Some(h) => {
            let n = choose|n: int|
                {
                    &&& 0 <= n < mru.len()
                    &&& h < candidates.len()
                    &&& eq(candidates[h as int], #[trigger] mru[n])
                    &&& forall|j: int| 0 <= j < h ==> !eq(#[trigger] candidates[j], mru[n])
                    &&& forall|k: int| 0 <= k < n ==> !occurs(candidates, #[trigger] mru[k], eq)
                };
            assert(occurs(candidates, mru[n], eq)) by {
                assert(eq(candidates[h as int], mru[n]));
            }
            assert(m == n);
            if i < h {
                assert(!eq(candidates[i as int], mru[n]));
            } else if h < i {
                assert(!eq(candidates[h as int], mru[m]));
            }
        },
    }
}

/// No two elements of `items` are equal.
pub open spec fn none_twice<T>(items: Seq<T>, eq: spec_fn(T, T) -> bool) -> bool {
    forall|i: int, j: int| 0 <= i < j < items.len() ==> !#[trigger] eq(items[i], items[j])
}

proof fn lemma_occurs_alike<T>(items: Seq<T>, x: T, y: T, eq: spec_fn(T, T) -> bool)
    requires
        equivalence_relation(eq),
        eq(x, y),
    ensures
        occurs(items, x, eq) == occurs(items, y, eq),
{
    if occurs(items, x, eq) {
        let i = choose|i: int| 0 <= i < items.len() && #[trigger] eq(items[i], x);
        assert(eq(items[i], y));
    }
    if occurs(items, y, eq) {
        let i = choose|i: int| 0 <= i < items.len() && #[trigger] eq(items[i], y);
        assert(eq(y, x));
        assert(eq(items[i], x));
    }
}

proof fn lemma_contained_occurs<T>(items: Seq<T>, x: T, eq: spec_fn(T, T) -> bool)
    requires
        eq(x, x),
        items.contains(x),
    ensures
        occurs(items, x, eq),
{
    let i = choose|i: int| 0 <= i < items.len() && items[i] == x;
    assert(eq(items[i], x));
}

proof fn lemma_push_occurs<T>(items: Seq<T>, a: T, x: T, eq: spec_fn(T, T) -> bool)
    ensures
        occurs(items.push(a), x, eq) <==> occurs(items, x, eq) || eq(a, x),
{
    let more = items.push(a);
    if occurs(items, x, eq) {
        let i = choose|i: int| 0 <= i < items.len() && #[trigger] eq(items[i], x);
        assert(eq(more[i], x));
    }
    if eq(a, x) {
        assert(eq(more[items.len() as int], x));
    }
    if occurs(more, x, eq) {
        let i = choose|i: int| 0 <= i < more.len() && #[trigger] eq(more[i], x);
        if i < items.len() {
            assert(eq(items[i], x));
        }
    }
}

proof fn lemma_front_occurs<T>(a: T, items: Seq<T>, x: T, eq: spec_fn(T, T) -> bool)
    ensures
        occurs(seq![a] + items, x, eq) <==> eq(a, x) || occurs(items, x, eq),
{
    let more = seq![a] + items;
    if eq(a, x) {
        assert(eq(more[0], x));
    }
    if occurs(items, x, eq) {
        let i = choose|i: int| 0 <= i < items.len() && #[trigger] eq(items[i], x);
        assert(eq(more[i + 1], x));
    }
    if occurs(more, x, eq) {
        let i = choose|i: int| 0 <= i < more.len() && #[trigger] eq(more[i], x);
        if i > 0 {
            assert(eq(items[i - 1], x));
        }
    }
}

proof fn lemma_filter_occurs<T>(
    items: Seq<T>,
    pred: spec_fn(T) -> bool,
    x: T,
    eq: spec_fn(T, T) -> bool,
)
    ensures
        occurs(items.filter(pred), x, eq) <==> exists|i: int|
            0 <= i < items.len() && #[trigger] eq(items[i], x) && pred(items[i]),
{
    let kept = items.filter(pred);
    if occurs(kept, x, eq) {
        let k = choose|k: int| 0 <= k < kept.len() && #[trigger] eq(kept[k], x);
        assert(kept.contains(kept[k]));
        lemma_filter_contains(items, pred, kept[k]);
        let i = choose|i: int| 0 <= i < items.len() && items[i] == kept[k];
        assert(eq(items[i], x) && pred(items[i]));
    }
    if exists|i: int| 0 <= i < items.len() && #[trigger] eq(items[i], x) && pred(items[i]) {
        let i = choose|i: int|
            0 <= i < items.len() && #[trigger] eq(items[i], x) && pred(items[i]);
        assert(items.contains(items[i]));
        lemma_filter_contains(items, pred, items[i]);
        let k = choose|k: int| 0 <= k < kept.len() && kept[k] == items[i];
        assert(eq(kept[k], x));
    }
}

proof fn lemma_filter_none_twice<T>(
    items: Seq<T>,
    pred: spec_fn(T) -> bool,
    eq: spec_fn(T, T) -> bool,
)
    requires
        none_twice(items, eq),
    ensures
        none_twice(items.filter(pred), eq),
    decreases items.len(),
{
    reveal(Seq::filter);
    if items.len() > 0 {
        let rest = items.drop_last();
        let kept = rest.filter(pred);
        assert forall|i: int, j: int| 0 <= i < j < rest.len() implies !#[trigger] eq(
            rest[i],
            rest[j],
        ) by {
            assert(!eq(items[i], items[j]));
        }
        lemma_filter_none_twice(rest, pred, eq);
        assert forall|i: int| 0 <= i < kept.len() implies !#[trigger] eq(
            kept[i],
            items.last(),
        ) by {
            assert(kept.contains(kept[i]));
            lemma_filter_contains(rest, pred, kept[i]);
            let k = choose|k: int| 0 <= k < rest.len() && rest[k] == kept[i];
            assert(!eq(items[k], items[items.len() - 1]));
        }
    }
}

/// Up to any equivalence: promoting loses nothing, and makes nothing equal twice.
pub proof fn promoting_loses_nothing_up_to<T>(
    mru: Seq<T>,
    item: T,
    x: T,
    eq: spec_fn(T, T) -> bool,
)
    requires
        equivalence_relation(eq),
    ensures
        occurs(promoted(mru, item, eq), x, eq) <==> eq(item, x) || occurs(mru, x, eq),
        none_twice(mru, eq) ==> none_twice(promoted(mru, item, eq), eq),
{
    let others = |y: T| !eq(y, item);
    let rest = mru.filter(others);
    lemma_front_occurs(item, rest, x, eq);
    lemma_filter_occurs(mru, others, x, eq);
    if occurs(mru, x, eq) && !eq(item, x) {
        let i = choose|i: int| 0 <= i < mru.len() && #[trigger] eq(mru[i], x);
        if eq(mru[i], item) {
            assert(eq(item, mru[i]));
        }
        assert(others(mru[i]));
    }
    if none_twice(mru, eq) {
        lemma_filter_none_twice(mru, others, eq);
        let all = promoted(mru, item, eq);
        assert forall|i: int, j: int| 0 <= i < j < all.len() implies !#[trigger] eq(
            all[i],
            all[j],
        ) by {
            if i == 0 {
                promoted_item_is_in_front_only(mru, item, eq, j);
                assert(!eq(all[j], item));
            } else {
                assert(!eq(rest[i - 1], rest[j - 1]));
            }
        }
    }
}

/// Up to any equivalence: closed entries are forgotten, open ones are kept, and
/// forgetting again changes nothing.
pub proof fn retaining_keeps_what_is_present_up_to<T>(
    mru: Seq<T>,
    present: Seq<T>,
    x: T,
    eq: spec_fn(T, T) -> bool,
)
    requires
        equivalence_relation(eq),
    ensures
        occurs(retained(mru, present, eq), x, eq) <==> occurs(mru, x, eq) && occurs(
            present,
            x,
            eq,
        ),
        retained(retained(mru, present, eq), present, eq) == retained(mru, present, eq),
        none_twice(mru, eq) ==> none_twice(retained(mru, present, eq), eq),
{
    let is_present = |y: T| occurs(present, y, eq);
    let kept = retained(mru, present, eq);
    lemma_filter_occurs(mru, is_present, x, eq);
    assert forall|i: int| 0 <= i < mru.len() && #[trigger] eq(mru[i], x) implies is_present(mru[i])
        == occurs(present, x, eq) by {
        lemma_occurs_alike(present, mru[i], x, eq);
    }
    assert forall|j: int| 0 <= j < kept.len() implies is_present(#[trigger] kept[j]) by {
        assert(kept.contains(kept[j]));
        lemma_filter_contains(mru, is_present, kept[j]);
    }
    lemma_filter_all(kept, is_present);
    if none_twice(mru, eq) {
        lemma_filter_none_twice(mru, is_present, eq);
    }
}

proof fn lemma_with_newcomers_occurs<T>(
    known: Seq<T>,
    present: Seq<T>,
    x: T,
    eq: spec_fn(T, T) -> bool,
)
    requires
        equivalence_relation(eq),
    ensures
        occurs(with_newcomers(known, present, eq), x, eq) <==> occurs(known, x, eq) || occurs(
            present,
            x,
            eq,
        ),
        none_twice(known, eq) ==> none_twice(with_newcomers(known, present, eq), eq),
    decreases present.len(),
{
    if present.len() > 0 {
        let rest = present.drop_last();
        let last = present.last();
        let so_far = with_newcomers(known, rest, eq);
        lemma_with_newcomers_occurs(known, rest, x, eq);
        assert(present =~= rest.push(last));
        lemma_push_occurs(rest, last, x, eq);
        lemma_push_occurs(so_far, last, x, eq);
        if occurs(so_far, last, eq) && eq(last, x) {
            lemma_occurs_alike(so_far, last, x, eq);
        }
        if none_twice(so_far, eq) && !occurs(so_far, last, eq) {
            let more = so_far.push(last);
            assert forall|i: int, j: int| 0 <= i < j < more.len() implies !#[trigger] eq(
                more[i],
                more[j],
            ) by {
                if j < so_far.len() {
                    assert(!eq(so_far[i], so_far[j]));
                } else {
                    assert(!eq(so_far[i], last));
                }
            }
        }
    }
}

/// Up to any equivalence: the display order holds exactly the items that are present,
/// and, where the MRU list has none twice, none of them twice.
pub proof fn order_is_complete_up_to<T>(
    mru: Seq<T>,
    present: Seq<T>,
    x: T,
    eq: spec_fn(T, T) -> bool,
)
    requires
        equivalence_relation(eq),
    ensures
        occurs(ordered(mru, present, eq), x, eq) <==> occurs(present, x, eq),
        none_twice(mru, eq) ==> none_twice(ordered(mru, present, eq), eq),
{
    retaining_keeps_what_is_present_up_to(mru, present, x, eq);
    lemma_with_newcomers_occurs(retained(mru, present, eq), present, x, eq);
}

proof fn lemma_no_newcomers_up_to<T>(known: Seq<T>, present: Seq<T>, eq: spec_fn(T, T) -> bool)
    requires
        forall|j: int| 0 <= j < present.len() ==> occurs(known, #[trigger] present[j], eq),
    ensures
        with_newcomers(known, present, eq) == known,
    decreases present.len(),
{
    if present.len() > 0 {
        let rest = present.drop_last();
        assert forall|j: int| 0 <= j < rest.len() implies occurs(known, #[trigger] rest[j], eq) by {
            assert(rest[j] == present[j]);
        }
        lemma_no_newcomers_up_to(known, rest, eq);
        assert(occurs(known, present[present.len() - 1], eq));
    }
}

/// Up to any equivalence: the display order is itself an up-to-date MRU list.
pub proof fn order_is_an_mru_list_up_to<T>(
    mru: Seq<T>,
    present: Seq<T>,
    eq: spec_fn(T, T) -> bool,
)
    requires
        equivalence_relation(eq),
    ensures
        ordered(ordered(mru, present, eq), present, eq) == ordered(mru, present, eq),
{
    let order = ordered(mru, present, eq);
    let is_present = |y: T| occurs(present, y, eq);
    assert forall|j: int| 0 <= j < order.len() implies is_present(#[trigger] order[j]) by {
        assert(order.contains(order[j]));
        lemma_contained_occurs(order, order[j], eq);
        order_is_complete_up_to(mru, present, order[j], eq);
    }
    lemma_filter_all(order, is_present);
    assert forall|j: int| 0 <= j < present.len() implies occurs(
        order,
        #[trigger] present[j],
        eq,
    ) by {
        assert(present.contains(present[j]));
        lemma_contained_occurs(present, present[j], eq);
        order_is_complete_up_to(mru, present, present[j], eq);
    }
    lemma_no_newcomers_up_to(order, present, eq);
}

proof fn lemma_with_newcomers_behind<T>(
    known: Seq<T>,
    present: Seq<T>,
    x: T,
    eq: spec_fn(T, T) -> bool,
)
    requires
        equivalence_relation(eq),
    ensures
        with_newcomers(seq![x] + known.filter(|y: T| !eq(y, x)), present, eq) == seq![x]
            + with_newcomers(known, present, eq).filter(|y: T| !eq(y, x)),
    decreases present.len(),
{
    let others = |y: T| !eq(y, x);
    if present.len() > 0 {
        let rest = present.drop_last();
        let p = present.last();
        lemma_with_newcomers_behind(known, rest, x, eq);
        let plain = with_newcomers(known, rest, eq);
        let behind = plain.filter(others);
        lemma_front_occurs(x, behind, p, eq);
        lemma_filter_occurs(plain, others, p, eq);
        assert(plain.push(p).drop_last() =~= plain);
        assert(plain.push(p).filter(others) == (if others(p) {
            behind.push(p)
        } else {
            behind
        })) by {
            reveal(Seq::filter);
        }
        if others(p) {
            assert(!eq(x, p));
            if occurs(plain, p, eq) {
                let i = choose|i: int| 0 <= i < plain.len() && #[trigger] eq(plain[i], p);
                if eq(plain[i], x) {
                    assert(eq(p, plain[i]));
                }
                assert(others(plain[i]));
            }
            assert((seq![x] + behind).push(p) =~= seq![x] + behind.push(p));
        } else {
            assert(eq(x, p));
        }
    }
}

/// Promoting an item that is present and ordering again puts it first and keeps all
/// other items in their order.
pub proof fn promoted_item_comes_first_in_order<T>(
    mru: Seq<T>,
    present: Seq<T>,
    x: T,
    eq: spec_fn(T, T) -> bool,
)
    requires
        equivalence_relation(eq),
        occurs(present, x, eq),
    ensures
        ordered(promoted(mru, x, eq), present, eq) == seq![x] + ordered(
            mru,
            present,
            eq,
        ).filter(|y: T| !eq(y, x)),
{
    let others = |y: T| !eq(y, x);
    let is_present = |y: T| occurs(present, y, eq);
    Seq::filter_distributes_over_add(seq![x], mru.filter(others), is_present);
    assert forall|j: int| 0 <= j < seq![x].len() implies is_present(#[trigger] seq![x][j]) by {}
    lemma_filter_all(seq![x], is_present);
    lemma_filters_commute(mru, others, is_present);
    assert(retained(promoted(mru, x, eq), present, eq) == seq![x] + retained(
        mru,
        present,
        eq,
    ).filter(others));
    lemma_with_newcomers_behind(retained(mru, present, eq), present, x, eq);
}

proof fn lemma_filter_clones<T: Clone>(items: Seq<T>, copies: Seq<T>, pred: spec_fn(T) -> bool)
    requires
        all_cloned(items, copies),
        forall|a: T, b: T| #[trigger] cloned(a, b) ==> pred(b) == pred(a),
    ensures
        all_cloned(items.filter(pred), copies.filter(pred)),
    decreases items.len(),
{
    reveal(Seq::filter);
    if items.len() > 0 {
        let some = items.drop_last();
        let rest = copies.drop_last();
        assert forall|i: int| 0 <= i < some.len() implies cloned(#[trigger] some[i], rest[i]) by {
            assert(cloned(items[i], copies[i]));
        }
        lemma_filter_clones(some, rest, pred);
        assert(cloned(items[items.len() - 1], copies[items.len() - 1]));
    }
}

/// What `order_by_mru` returned before and after an item that is present was
/// promoted: the item comes first, and behind it all others of the list before, in
/// their order.
pub proof fn order_after_promotion<T: Clone>(
    mru: Seq<T>,
    present: Seq<T>,
    x: T,
    eq: spec_fn(T, T) -> bool,
    before: Seq<T>,
    after: Seq<T>,
)
    requires
        equivalence_relation(eq),
        clones_compare_alike(eq),
        occurs(present, x, eq),
        all_cloned(ordered(mru, present, eq), before),
        all_cloned(ordered(promoted(mru, x, eq), present, eq), after),
    ensures
        ({
            let others = ordered(mru, present, eq).filter(|y: T| !eq(y, x));
            &&& all_cloned(others, before.filter(|y: T| !eq(y, x)))
            &&& all_cloned(seq![x] + others, after)
        }),
{
    promoted_item_comes_first_in_order(mru, present, x, eq);
    let is_other = |y: T| !eq(y, x);
    assert forall|a: T, b: T| #[trigger] cloned(a, b) implies is_other(b) == is_other(a) by {
        assert(eq(b, x) == eq(a, x));
    }
    lemma_filter_clones(ordered(mru, present, eq), before, is_other);
}

/// The same where equality decides and a clone equals what was cloned, for any way to
/// say which items are other than `x`.
pub proof fn order_after_promotion_of_equals<T: Clone>(
    mru: Seq<T>,
    present: Seq<T>,
    x: T,
    before: Seq<T>,
    after: Seq<T>,
)
    requires
        forall|a: T, b: T| #[trigger] cloned(a, b) ==> a == b,
        present.contains(x),
        all_cloned(ordered(mru, present, same()), before),
        all_cloned(ordered(promoted(mru, x, same()), present, same()), after),
    ensures
        before == ordered(mru, present, same()),
        forall|is_other: spec_fn(T) -> bool|
            (forall|y: T| #[trigger] is_other(y) <==> y != x) ==> after == seq![x]
                + #[trigger] before.filter(is_other),
{
    let order = ordered(mru, present, same());
    let next = ordered(promoted(mru, x, same()), present, same());
    assert(before =~= order) by {
        assert forall|i: int| 0 <= i < order.len() implies before[i] == order[i] by {
            assert(cloned(order[i], before[i]));
        }
    }
    assert(after =~= next) by {
        assert forall|i: int| 0 <= i < next.len() implies after[i] == next[i] by {
            assert(cloned(next[i], after[i]));
        }
    }
    lemma_occurs_same(present, x);
    promoted_item_comes_first_in_order(mru, present, x, same());
    assert forall|is_other: spec_fn(T) -> bool|
        (forall|y: T| #[trigger] is_other(y) <==> y != x) implies after == seq![x]
        + #[trigger] before.filter(is_other) by {
        lemma_filter_congruence(order, |y: T| !same::<T>()(y, x), is_other);
    }
}

/// Promoting puts the item in front and keeps every entry that differs from it, in
/// place and number: `at` lists where those stood.
pub proof fn promoting_keeps_the_others_in_order<T>(
    mru: Seq<T>,
    item: T,
    eq: spec_fn(T, T) -> bool,
) -> (at: Seq<int>)
    ensures
        marks(at, mru, |x: T| !eq(x, item)),
        promoted(mru, item, eq).len() == 1 + at.len(),
        promoted(mru, item, eq)[0] == item,
        forall|k: int|
            0 <= k < at.len() ==> #[trigger] promoted(mru, item, eq)[k + 1] == mru[at[k]],
{
    let at = lemma_filter_positions(mru, |x: T| !eq(x, item));
    at
}

/// Retaining keeps exactly the entries that some present item equals, in order: `at`
/// lists where those stood.
pub proof fn retaining_keeps_the_order<T>(
    mru: Seq<T>,
    present: Seq<T>,
    eq: spec_fn(T, T) -> bool,
) -> (at: Seq<int>)
    ensures
        marks(
            at,
            mru,
            |x: T| exists|i: int| 0 <= i < present.len() && #[trigger] eq(present[i], x),
        ),
        retained(mru, present, eq) == at_positions(mru, at),
{
    let at = lemma_filter_positions(mru, |x: T| occurs(present, x, eq));
    at
}

/// The positions of the items of `present` that are neither in `known` nor listed in
/// `present` before.
pub proof fn lemma_newcomers<T>(known: Seq<T>, present: Seq<T>) -> (at: Seq<int>)
    ensures
        with_newcomers(known, present, same()) == known + at_positions(present, at),
        forall|k: int|
            0 <= k < at.len() ==> 0 <= #[trigger] at[k] < present.len() && !known.contains(
                present[at[k]],
            ) && !present.take(at[k]).contains(present[at[k]]),
        forall|k: int, l: int| 0 <= k < l < at.len() ==> #[trigger] at[k] < #[trigger] at[l],
        forall|q: int|
            0 <= q < present.len() && !known.contains(#[trigger] present[q]) && !present.take(
                q,
            ).contains(present[q]) ==> at.contains(q),
    decreases present.len(),
{
    if present.len() == 0 {
        let at = Seq::<int>::empty();
        assert(known + at_positions(present, at) =~= known);
        at
    } else {
        let rest = present.drop_last();
        let last = present.last();
        let before = lemma_newcomers(known, rest);
        let so_far = with_newcomers(known, rest, same());
        lemma_occurs_same(so_far, last);
        lemma_with_newcomers_contains(known, rest, last);
        assert(present.take(rest.len() as int) =~= rest);
        assert forall|q: int| 0 <= q < rest.len() implies #[trigger] present.take(q) == rest.take(
            q,
        ) by {
            assert(present.take(q) =~= rest.take(q));
        }
        let fresh = !known.contains(last) && !rest.contains(last);
        let at = if fresh {
            before.push(rest.len() as int)
        } else {
            before
        };
        assert forall|k: int| 0 <= k < at.len() implies 0 <= #[trigger] at[k] < present.len()
            && !known.contains(present[at[k]]) && !present.take(at[k]).contains(
            present[at[k]],
        ) by {
            if k < before.len() {
                assert(at[k] == before[k]);
                assert(rest[before[k]] == present[before[k]]);
                assert(present.take(before[k]) == rest.take(before[k]));
            }
        }
        assert forall|q: int|
            0 <= q < present.len() && !known.contains(#[trigger] present[q]) && !present.take(
                q,
            ).contains(present[q]) implies at.contains(q) by {
            if q < rest.len() {
                assert(rest[q] == present[q]);
                assert(present.take(q) == rest.take(q));
                let k = choose|k: int| 0 <= k < before.len() && before[k] == q;
                assert(at[k] == q);
            } else {
                assert(fresh);
                assert(at[before.len() as int] == q);
            }
        }
        assert forall|k: int| 0 <= k < before.len() implies rest[#[trigger] before[k]]
            == present[before[k]] by {}
        assert(with_newcomers(known, present, same()) =~= known + at_positions(present, at));
        at
    }
}

/// The display order, position by position: first the entries of `mru` that are
/// present, then the items of `present` that `mru` does not have, at their first
/// occurrences. Both keep their order.
pub proof fn order_by_position<T>(mru: Seq<T>, present: Seq<T>) -> (at: (Seq<int>, Seq<int>))
    ensures
        marks(at.0, mru, |x: T| present.contains(x)),
        forall|k: int|
            0 <= k < at.1.len() ==> 0 <= #[trigger] at.1[k] < present.len() && !mru.contains(
                present[at.1[k]],
            ) && !present.take(at.1[k]).contains(present[at.1[k]]),
        forall|k: int, l: int| 0 <= k < l < at.1.len() ==> #[trigger] at.1[k] < #[trigger] at.1[l],
        forall|q: int|
            0 <= q < present.len() && !mru.contains(#[trigger] present[q]) && !present.take(
                q,
            ).contains(present[q]) ==> at.1.contains(q),
        ordered(mru, present, same()) == at_positions(mru, at.0) + at_positions(present, at.1),
{
    let is_present = |x: T| present.contains(x);
    let found = |x: T| occurs(present, x, same());
    assert forall|j: int| 0 <= j < mru.len() implies found(#[trigger] mru[j]) == is_present(
        mru[j],
    ) by {
        lemma_occurs_same(present, mru[j]);
    }
    lemma_filter_congruence(mru, found, is_present);
    let old = lemma_filter_positions(mru, is_present);
    let known = retained(mru, present, same());
    let new = lemma_newcomers(known, present);
    assert forall|q: int| 0 <= q < present.len() implies known.contains(#[trigger] present[q])
        == mru.contains(present[q]) by {
        assert(present.contains(present[q]));
        lemma_filter_contains(mru, is_present, present[q]);
    }
    (old, new)
}

/// The most recent candidate is the first one equal to the earliest entry of `mru` that
/// any candidate equals; there is one as soon as any entry equals any candidate.
pub proof fn most_recent_is_the_earliest<T>(
    mru: Seq<T>,
    candidates: Seq<T>,
    found: Option<usize>,
    m: int,
    i: int,
)
    requires
        is_most_recent(mru, candidates, same(), found),
        0 <= m < mru.len(),
        0 <= i < candidates.len() <= usize::MAX,
        candidates[i] == mru[m],
        forall|k: int, j: int|
            0 <= k < m && 0 <= j < candidates.len() ==> #[trigger] candidates[j]
                != #[trigger] mru[k],
        forall|j: int| 0 <= j < i ==> #[trigger] candidates[j] != mru[m],
    ensures
        found == Some(i as usize),
{
    let eq = same::<T>();
    assert(is_most_recent(mru, candidates, eq, Some(i as usize))) by {
        assert(eq(candidates[i], mru[m]));
        assert forall|k: int| 0 <= k < m implies !occurs(candidates, #[trigger] mru[k], eq) by {
            lemma_occurs_same(candidates, mru[k]);
        }
    }
    most_recent_is_unique(mru, candidates, eq, found, Some(i as usize));
}

/// Where no entry of `mru` equals a candidate, there is no most recent one.
pub proof fn no_history_no_most_recent<T>(
    mru: Seq<T>,
    candidates: Seq<T>,
    found: Option<usize>,
)
    requires
        is_most_recent(mru, candidates, same(), found),
        forall|k: int, j: int|
            0 <= k < mru.len() && 0 <= j < candidates.len() ==> #[trigger] candidates[j]
                != #[trigger] mru[k],
    ensures
        found is None,
{
}

} // verus!
