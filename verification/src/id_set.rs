//! `indexmap::IndexSet`, as far as the switcher uses it: insertion-ordered sets
//! of window handles and of hotkey ids.
//!
//! Everything here hands a call to the `indexmap` crate. What a set holds is
//! spoken of as a sequence, in the set's own order.
use crate::seqs::lemma_push_contains;
use indexmap::IndexSet;
use vstd::prelude::*;

verus! {

#[verifier::external_type_specification]
#[verifier::external_body]
#[verifier::reject_recursive_types(T)]
#[verifier::reject_recursive_types(S)]
pub struct ExIndexSet<T, S>(IndexSet<T, S>);

/// The handles in `set`, in its order.
pub uninterp spec fn handles(set: IndexSet<isize>) -> Seq<isize>;

/// The ids in `set`, in its order.
pub uninterp spec fn ids(set: IndexSet<u32>) -> Seq<u32>;

/// The elements of `s`, each at its first occurrence only.
pub open spec fn distinct<A>(s: Seq<A>) -> Seq<A>
    decreases s.len(),
{
    if s.len() == 0 {
        s
    } else {
        with_inserted(distinct(s.drop_last()), s.last())
    }
}

/// `s` with `x` at its end, or `s` itself if it already holds `x`.
pub open spec fn with_inserted<A>(s: Seq<A>, x: A) -> Seq<A> {
    if s.contains(x) {
        s
    } else {
        s.push(x)
    }
}

/// `s` without `x`, whose place the last element takes.
pub open spec fn swap_removed<A>(s: Seq<A>, x: A) -> Seq<A> {
    if s.contains(x) {
        s.update(s.index_of(x), s.last()).drop_last()
    } else {
        s
    }
}

/// Dropping later occurrences loses no element and keeps none twice.
pub proof fn lemma_distinct<A>(s: Seq<A>, x: A)
    ensures
        distinct(s).no_duplicates(),
        distinct(s).contains(x) <==> s.contains(x),
        s.no_duplicates() ==> distinct(s) == s,
    decreases s.len(),
{
    if s.len() > 0 {
        let rest = s.drop_last();
        lemma_distinct(rest, x);
        lemma_distinct(rest, s.last());
        assert(s =~= rest.push(s.last()));
        lemma_push_contains(rest, s.last(), x);
        lemma_push_contains(distinct(rest), s.last(), x);
        if s.no_duplicates() && rest.contains(s.last()) {
            let i = choose|i: int| 0 <= i < rest.len() && rest[i] == s.last();
            assert(s[i] == s[s.len() - 1]);
        }
    }
}

/// `IndexSet::from_iter`: inserts each handle in turn, so that the set holds
/// each once, in the order of their first occurrences.
#[verifier::external_body]
pub(crate) fn collect_handles(list: Vec<isize>) -> (set: IndexSet<isize>)
    ensures
        handles(set) == distinct(list@),
{
    IndexSet::from_iter(list)
}

/// `IndexSet::contains`: whether the set holds `handle`.
#[verifier::external_body]
pub(crate) fn has_handle(set: &IndexSet<isize>, handle: isize) -> (found: bool)
    ensures
        found == handles(*set).contains(handle),
{
    set.contains(&handle)
}

/// `IndexSet::swap_remove`: takes `handle` out, moving the last element into its
/// place, and says whether it was there.
#[verifier::external_body]
pub(crate) fn remove_handle(set: &mut IndexSet<isize>, handle: isize) -> (removed: bool)
    ensures
        removed == handles(*old(set)).contains(handle),
        handles(*final(set)) == swap_removed(handles(*old(set)), handle),
{
    set.swap_remove(&handle)
}

/// `IndexSet::into_iter`: hands out the handles in the set's order.
#[verifier::external_body]
pub(crate) fn list_handles(set: IndexSet<isize>) -> (list: Vec<isize>)
    ensures
        list@ == handles(set),
{
    set.into_iter().collect()
}

/// `IndexSet::new`: an empty set.
#[verifier::external_body]
pub(crate) fn no_ids() -> (set: IndexSet<u32>)
    ensures
        ids(set) == Seq::<u32>::empty(),
{
    IndexSet::new()
}

/// `IndexSet::insert`: adds `id` at the end unless the set already holds it, and
/// says whether it was added.
#[verifier::external_body]
pub(crate) fn insert_id(set: &mut IndexSet<u32>, id: u32) -> (added: bool)
    ensures
        added == !ids(*old(set)).contains(id),
        ids(*final(set)) == with_inserted(ids(*old(set)), id),
{
    set.insert(id)
}

/// `IndexSet::into_iter`: hands out the ids in the set's order.
#[verifier::external_body]
pub(crate) fn list_ids(set: IndexSet<u32>) -> (list: Vec<u32>)
    ensures
        list@ == ids(set),
{
    set.into_iter().collect()
}

} // verus!
