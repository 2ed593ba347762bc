//! Facts about sequences that the other modules share.
use vstd::prelude::*;

verus! {

/// Filtering one element more keeps it exactly if it satisfies the predicate.
pub proof fn lemma_filter_take<T>(s: Seq<T>, k: int, pred: spec_fn(T) -> bool)
    requires
        0 <= k < s.len(),
    ensures
        s.take(k + 1).filter(pred) == (if pred(s[k]) {
            s.take(k).filter(pred).push(s[k])
        } else {
            s.take(k).filter(pred)
        }),
{
    reveal(Seq::filter);
    assert(s.take(k + 1).drop_last() =~= s.take(k));
}

/// The first element that satisfies a predicate is the first of the filtered sequence.
pub proof fn lemma_first_of_filter<T>(s: Seq<T>, i: int, pred: spec_fn(T) -> bool)
    requires
        0 <= i < s.len(),
        pred(s[i]),
        forall|j: int| 0 <= j < i ==> !pred(#[trigger] s[j]),
    ensures
        s.filter(pred).len() > 0,
        s.filter(pred).first() == s[i],
    decreases s.len(),
{
    reveal(Seq::filter);
    let rest = s.drop_last();
    if i < rest.len() {
        lemma_first_of_filter(rest, i, pred);
    } else {
        lemma_filter_none(rest, pred);
    }
}

/// Where no element satisfies a predicate, nothing is left of the sequence.
pub proof fn lemma_filter_none<T>(s: Seq<T>, pred: spec_fn(T) -> bool)
    requires
        forall|j: int| 0 <= j < s.len() ==> !pred(#[trigger] s[j]),
    ensures
        s.filter(pred) == Seq::<T>::empty(),
    decreases s.len(),
{
    reveal(Seq::filter);
    if s.len() > 0 {
        lemma_filter_none(s.drop_last(), pred);
    }
    assert(s.filter(pred) =~= Seq::<T>::empty());
}

/// Where every element satisfies a predicate, the sequence is left as it is.
pub proof fn lemma_filter_all<T>(s: Seq<T>, pred: spec_fn(T) -> bool)
    requires
        forall|j: int| 0 <= j < s.len() ==> pred(#[trigger] s[j]),
    ensures
        s.filter(pred) == s,
    decreases s.len(),
{
    reveal(Seq::filter);
    if s.len() > 0 {
        lemma_filter_all(s.drop_last(), pred);
    }
    assert(s.filter(pred) =~= s);
}

/// A filtered sequence holds exactly the elements that satisfy the predicate.
pub proof fn lemma_filter_contains<T>(s: Seq<T>, pred: spec_fn(T) -> bool, x: T)
    ensures
        s.filter(pred).contains(x) <==> s.contains(x) && pred(x),
    decreases s.len(),
{
    reveal(Seq::filter);
    if s.len() > 0 {
        let rest = s.drop_last();
        lemma_filter_contains(rest, pred, x);
        assert(s =~= rest.push(s.last()));
        lemma_push_contains(rest, s.last(), x);
        lemma_push_contains(rest.filter(pred), s.last(), x);
    }
}

/// Pushing adds exactly the pushed element.
pub proof fn lemma_push_contains<T>(s: Seq<T>, a: T, x: T)
    ensures
        s.push(a).contains(x) <==> s.contains(x) || x == a,
{
    assert(s.push(a)[s.len() as int] == a);
    if s.contains(x) {
        let i = choose|i: int| 0 <= i < s.len() && s[i] == x;
        assert(s.push(a)[i] == x);
    }
}

/// Filtering keeps a sequence free of duplicates.
pub proof fn lemma_filter_no_duplicates<T>(s: Seq<T>, pred: spec_fn(T) -> bool)
    requires
        s.no_duplicates(),
    ensures
        s.filter(pred).no_duplicates(),
    decreases s.len(),
{
    reveal(Seq::filter);
    if s.len() > 0 {
        let rest = s.drop_last();
        lemma_filter_no_duplicates(rest, pred);
        lemma_filter_contains(rest, pred, s.last());
        if rest.contains(s.last()) {
            let i = choose|i: int| 0 <= i < rest.len() && rest[i] == s.last();
            assert(s[i] == s[s.len() - 1]);
        }
        assert forall|i: int| 0 <= i < rest.filter(pred).len() implies #[trigger] rest.filter(
            pred,
        )[i] != s.last() by {
            assert(rest.filter(pred).contains(rest.filter(pred)[i]));
        }
    }
}

/// A concatenation holds what either part holds.
pub proof fn lemma_concat_contains<T>(a: Seq<T>, b: Seq<T>, x: T)
    ensures
        (a + b).contains(x) <==> a.contains(x) || b.contains(x),
{
    let s = a + b;
    if a.contains(x) {
        let i = choose|i: int| 0 <= i < a.len() && a[i] == x;
        assert(s[i] == x);
    }
    if b.contains(x) {
        let i = choose|i: int| 0 <= i < b.len() && b[i] == x;
        assert(s[a.len() + i] == x);
    }
    if s.contains(x) {
        let i = choose|i: int| 0 <= i < s.len() && s[i] == x;
        if i < a.len() {
            assert(a[i] == x);
        } else {
            assert(b[i - a.len()] == x);
        }
    }
}

/// Predicates that agree on a sequence keep the same of it.
pub proof fn lemma_filter_congruence<T>(s: Seq<T>, p: spec_fn(T) -> bool, q: spec_fn(T) -> bool)
    requires
        forall|j: int| 0 <= j < s.len() ==> p(#[trigger] s[j]) == q(s[j]),
    ensures
        s.filter(p) == s.filter(q),
    decreases s.len(),
{
    reveal(Seq::filter);
    if s.len() > 0 {
        let rest = s.drop_last();
        assert forall|j: int| 0 <= j < rest.len() implies p(#[trigger] rest[j]) == q(rest[j]) by {
            assert(rest[j] == s[j]);
        }
        lemma_filter_congruence(rest, p, q);
        assert(p(s[s.len() - 1]) == q(s[s.len() - 1]));
    }
}

/// Filtering twice keeps what satisfies both predicates.
pub proof fn lemma_filter_twice<T>(s: Seq<T>, p: spec_fn(T) -> bool, q: spec_fn(T) -> bool)
    ensures
        s.filter(p).filter(q) == s.filter(|x: T| p(x) && q(x)),
    decreases s.len(),
{
    reveal(Seq::filter);
    if s.len() > 0 {
        let rest = s.drop_last();
        lemma_filter_twice(rest, p, q);
        if p(s.last()) {
            assert(rest.filter(p).push(s.last()).drop_last() =~= rest.filter(p));
        }
    }
}

/// Two filters can be applied in either order.
pub proof fn lemma_filters_commute<T>(s: Seq<T>, p: spec_fn(T) -> bool, q: spec_fn(T) -> bool)
    ensures
        s.filter(p).filter(q) == s.filter(q).filter(p),
{
    lemma_filter_twice(s, p, q);
    lemma_filter_twice(s, q, p);
    lemma_filter_congruence(s, |x: T| p(x) && q(x), |x: T| q(x) && p(x));
}

/// `at` lists, in increasing order, exactly the positions of `s` whose elements satisfy
/// the predicate.
pub open spec fn marks<T>(at: Seq<int>, s: Seq<T>, pred: spec_fn(T) -> bool) -> bool {
    &&& forall|k: int| 0 <= k < at.len() ==> 0 <= #[trigger] at[k] < s.len() && pred(s[at[k]])
    &&& forall|k: int, l: int| 0 <= k < l < at.len() ==> #[trigger] at[k] < #[trigger] at[l]
    &&& forall|p: int| 0 <= p < s.len() && pred(#[trigger] s[p]) ==> at.contains(p)
}

/// The elements of `s` at the positions `at`.
pub open spec fn at_positions<T>(s: Seq<T>, at: Seq<int>) -> Seq<T> {
    Seq::new(at.len(), |k: int| s[at[k]])
}

/// A filtered sequence holds the elements at the positions that satisfy the predicate,
/// in order.
pub proof fn lemma_filter_positions<T>(s: Seq<T>, pred: spec_fn(T) -> bool) -> (at: Seq<int>)
    ensures
        marks(at, s, pred),
        s.filter(pred) == at_positions(s, at),
    decreases s.len(),
{
    reveal(Seq::filter);
    if s.len() == 0 {
        let at = Seq::<int>::empty();
        assert(s.filter(pred) =~= at_positions(s, at));
        at
    } else {
        let rest = s.drop_last();
        let before = lemma_filter_positions(rest, pred);
        let at = if pred(s.last()) {
            before.push(rest.len() as int)
        } else {
            before
        };
        assert forall|k: int| 0 <= k < at.len() implies 0 <= #[trigger] at[k] < s.len() && pred(
            s[at[k]],
        ) by {
            if k < before.len() {
                assert(at[k] == before[k]);
                assert(rest[before[k]] == s[before[k]]);
            }
        }
        assert forall|p: int| 0 <= p < s.len() && pred(#[trigger] s[p]) implies at.contains(p) by {
            if p < rest.len() {
                assert(pred(rest[p]));
                let k = choose|k: int| 0 <= k < before.len() && before[k] == p;
                assert(at[k] == p);
            } else {
                assert(at[before.len() as int] == p);
            }
        }
        assert forall|k: int| 0 <= k < before.len() implies rest[#[trigger] before[k]]
            == s[before[k]] by {}
        assert(s.filter(pred) =~= at_positions(s, at));
        at
    }
}

} // verus!
