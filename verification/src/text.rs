//! Text: how strings are compared, lowered and put together.
use crate::mru::{
    decides_eq, lemma_occurs_same, occurs, ordered, promoted, retained, same, with_newcomers,
};
use vstd::prelude::*;

verus! {

/// The characters of each string of a list.
pub open spec fn texts(list: Seq<String>) -> Seq<Seq<char>> {
    list.map_values(|s: String| s@)
}

/// Strings are equal when they hold the same characters.
pub open spec fn same_text() -> spec_fn(String, String) -> bool {
    |a: String, b: String| a@ == b@
}

/// `==` on strings compares their characters.
pub proof fn lemma_same_text_decides()
    ensures
        decides_eq(same_text()),
{
}

/// A list of strings has one equal to `item` exactly if it has one with its characters.
pub proof fn lemma_occurs_text(list: Seq<String>, item: String)
    ensures
        occurs(list, item, same_text()) <==> texts(list).contains(item@),
{
    let eq = same_text();
    if occurs(list, item, eq) {
        let i = choose|i: int| 0 <= i < list.len() && #[trigger] eq(list[i], item);
        assert(texts(list)[i] == item@);
    }
    if texts(list).contains(item@) {
        let i = choose|i: int| 0 <= i < texts(list).len() && texts(list)[i] == item@;
        assert(eq(list[i], item));
    }
}

proof fn lemma_texts_filter(
    list: Seq<String>,
    p: spec_fn(String) -> bool,
    q: spec_fn(Seq<char>) -> bool,
)
    requires
        forall|i: int| 0 <= i < list.len() ==> p(#[trigger] list[i]) == q(list[i]@),
    ensures
        texts(list.filter(p)) == texts(list).filter(q),
    decreases list.len(),
{
    reveal(Seq::filter);
    if list.len() > 0 {
        let rest = list.drop_last();
        assert forall|i: int| 0 <= i < rest.len() implies p(#[trigger] rest[i]) == q(rest[i]@) by {
            assert(rest[i] == list[i]);
        }
        lemma_texts_filter(rest, p, q);
        assert(texts(list).drop_last() =~= texts(rest));
        assert(p(list[list.len() - 1]) == q(list[list.len() - 1]@));
        assert(texts(rest.filter(p).push(list.last())) =~= texts(rest.filter(p)).push(
            list.last()@,
        ));
    }
    assert(texts(list.filter(p)) =~= texts(list).filter(q));
}

/// Promoting a string promotes its characters.
pub proof fn lemma_texts_promoted(list: Seq<String>, item: String)
    ensures
        texts(promoted(list, item, same_text())) == promoted(texts(list), item@, same()),
{
    let p = |x: String| !same_text()(x, item);
    let q = |x: Seq<char>| !same::<Seq<char>>()(x, item@);
    lemma_texts_filter(list, p, q);
    assert(texts(promoted(list, item, same_text())) =~= promoted(texts(list), item@, same()));
}

proof fn lemma_texts_occurs(list: Seq<String>, item: String)
    ensures
        occurs(list, item, same_text()) == occurs(texts(list), item@, same()),
{
    lemma_occurs_text(list, item);
    lemma_occurs_same(texts(list), item@);
}

proof fn lemma_texts_with_newcomers(known: Seq<String>, present: Seq<String>)
    ensures
        texts(with_newcomers(known, present, same_text())) == with_newcomers(
            texts(known),
            texts(present),
            same(),
        ),
    decreases present.len(),
{
    if present.len() > 0 {
        let rest = present.drop_last();
        lemma_texts_with_newcomers(known, rest);
        assert(texts(present).drop_last() =~= texts(rest));
        let so_far = with_newcomers(known, rest, same_text());
        lemma_texts_occurs(so_far, present.last());
        assert(texts(so_far.push(present.last())) =~= texts(so_far).push(present.last()@));
    }
}

/// Ordering strings orders their characters.
pub proof fn lemma_texts_ordered(list: Seq<String>, present: Seq<String>)
    ensures
        texts(ordered(list, present, same_text())) == ordered(
            texts(list),
            texts(present),
            same(),
        ),
{
    let p = |x: String| occurs(present, x, same_text());
    let q = |x: Seq<char>| occurs(texts(present), x, same());
    assert forall|i: int| 0 <= i < list.len() implies p(#[trigger] list[i]) == q(list[i]@) by {
        lemma_texts_occurs(present, list[i]);
    }
    lemma_texts_filter(list, p, q);
    lemma_texts_with_newcomers(retained(list, present, same_text()), present);
}

/// What `str::to_lowercase` makes of `text`.
pub uninterp spec fn lowercase(text: Seq<char>) -> Seq<char>;

/// `str::to_lowercase`: the lowercase equivalent of `text`, which depends on
/// nothing but its characters.
#[verifier::external_body]
pub(crate) fn to_lowercase(text: &str) -> (lower: String)
    ensures
        lower@ == lowercase(text@),
{
    text.to_lowercase()
}

/// The decimal digit for `d`.
pub open spec fn digit(d: int) -> char {
    if d == 0 {
        '0'
    } else if d == 1 {
        '1'
    } else if d == 2 {
        '2'
    } else if d == 3 {
        '3'
    } else if d == 4 {
        '4'
    } else if d == 5 {
        '5'
    } else if d == 6 {
        '6'
    } else if d == 7 {
        '7'
    } else if d == 8 {
        '8'
    } else {
        '9'
    }
}

/// `n` in decimal, without leading zeros.
pub open spec fn decimal(n: nat) -> Seq<char>
    decreases n,
{
    if n < 10 {
        seq![digit(n as int)]
    } else {
        decimal(n / 10).push(digit((n % 10) as int))
    }
}

fn digit_text(d: usize) -> (text: &'static str)
    requires
        d < 10,
    ensures
        text@ == seq![digit(d as int)],
{
    proof {
        reveal_strlit("0");
        reveal_strlit("1");
        reveal_strlit("2");
        reveal_strlit("3");
        reveal_strlit("4");
        reveal_strlit("5");
        reveal_strlit("6");
        reveal_strlit("7");
        reveal_strlit("8");
        reveal_strlit("9");
    }
    let text = if d == 0 {
        "0"
    } else if d == 1 {
        "1"
    } else if d == 2 {
        "2"
    } else if d == 3 {
        "3"
    } else if d == 4 {
        "4"
    } else if d == 5 {
        "5"
    } else if d == 6 {
        "6"
    } else if d == 7 {
        "7"
    } else if d == 8 {
        "8"
    } else {
        "9"
    };
    assert(text@ =~= seq![digit(d as int)]);
    text
}

/// Writes `n` in decimal.
pub fn decimal_text(n: usize) -> (text: String)
    ensures
        text@ == decimal(n as nat),
    decreases n,
{
    let mut text = if n < 10 {
        String::new()
    } else {
        decimal_text(n / 10)
    };
    text.append(digit_text(n % 10));
    assert(text@ =~= decimal(n as nat));
    text
}

/// Copies a list of strings.
pub(crate) fn copy_texts(list: &Vec<String>) -> (copy: Vec<String>)
    ensures
        texts(copy@) == texts(list@),
{
    let copy = list.clone();
    assert(texts(copy@) =~= texts(list@));
    copy
}

/// The number that a sequence of decimal digits stands for.
pub open spec fn decimal_value(digits: Seq<char>) -> int
    decreases digits.len(),
{
    if digits.len() == 0 {
        0
    } else {
        decimal_value(digits.drop_last()) * 10 + (digits.last() as int - '0' as int)
    }
}

/// A number in decimal reads back as the number. It is made of digits, at least one, and
/// begins with a zero only if it is zero.
pub proof fn decimal_reads_back(n: nat)
    ensures
        decimal_value(decimal(n)) == n,
        decimal(n).len() > 0,
        decimal(n)[0] == '0' <==> n == 0,
        forall|i: int|
            0 <= i < decimal(n).len() ==> '0' as int <= #[trigger] decimal(n)[i] as int
                <= '9' as int,
    decreases n,
{
    reveal_with_fuel(decimal_value, 2);
    if n >= 10 {
        decimal_reads_back(n / 10);
        let text = decimal(n);
        assert(text.drop_last() =~= decimal(n / 10));
        assert(text[0] == decimal(n / 10)[0]);
    } else {
        assert(decimal(n).drop_last() =~= Seq::<char>::empty());
    }
}

/// A list of strings is modelled one by one and in order.
pub proof fn texts_are_modelled_one_by_one(list: Seq<String>, i: int)
    ensures
        texts(list).len() == list.len(),
        0 <= i < list.len() ==> texts(list)[i] == list[i]@,
{
}

} // verus!
