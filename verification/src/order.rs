//! The lexicographic order of texts, and sorting by it.

use vstd::prelude::*;
use vstd::relations::*;
use vstd::seq_lib::*;

use crate::text::chars_of;

verus! {

/// Whether `a` comes no later than `b` in the lexicographic order by code point.
pub open spec fn text_leq(a: Seq<char>, b: Seq<char>) -> bool
    decreases a.len(),
{
    ||| a.len() == 0
    ||| b.len() > 0 && a[0] < b[0]
    ||| b.len() > 0 && a[0] == b[0] && text_leq(a.drop_first(), b.drop_first())
}

/// The order of texts as a relation.
pub open spec fn text_order() -> spec_fn(Seq<char>, Seq<char>) -> bool {
    |a: Seq<char>, b: Seq<char>| text_leq(a, b)
}

/// The texts of `v`, each as often as it occurs there, in lexicographic order.
pub open spec fn in_order(v: Seq<Seq<char>>) -> Seq<Seq<char>> {
    v.sort_by(text_order())
}

proof fn lemma_reflexive(a: Seq<char>)
    ensures
        text_leq(a, a),
    decreases a.len(),
{
    if a.len() > 0 {
        lemma_reflexive(a.drop_first());
    }
}

proof fn lemma_antisymmetric(a: Seq<char>, b: Seq<char>)
    requires
        text_leq(a, b),
        text_leq(b, a),
    ensures
        a == b,
    decreases a.len(),
{
    if a.len() > 0 && b.len() > 0 {
        lemma_antisymmetric(a.drop_first(), b.drop_first());
        assert(a =~= seq![a[0]] + a.drop_first());
        assert(b =~= seq![b[0]] + b.drop_first());
    } else {
        assert(a =~= b);
    }
}

proof fn lemma_transitive(a: Seq<char>, b: Seq<char>, c: Seq<char>)
    requires
        text_leq(a, b),
        text_leq(b, c),
    ensures
        text_leq(a, c),
    decreases a.len(),
{
    if a.len() > 0 && a[0] == b[0] && b[0] == c[0] {
        lemma_transitive(a.drop_first(), b.drop_first(), c.drop_first());
    }
}

proof fn lemma_connected(a: Seq<char>, b: Seq<char>)
    ensures
        text_leq(a, b) || text_leq(b, a),
    decreases a.len(),
{
    if a.len() > 0 && b.len() > 0 && a[0] == b[0] {
        lemma_connected(a.drop_first(), b.drop_first());
    }
}

/// The lexicographic order is a total order on texts.
pub proof fn text_order_is_total()
    ensures
        total_ordering(text_order()),
{
    let r = text_order();
    assert forall|a: Seq<char>| #[trigger] r(a, a) by {
        lemma_reflexive(a);
    }
    assert forall|a: Seq<char>, b: Seq<char>| #[trigger] r(a, b) && #[trigger] r(b, a) implies a
        == b by {
        lemma_antisymmetric(a, b);
    }
    assert forall|a: Seq<char>, b: Seq<char>, c: Seq<char>|
        #[trigger] r(a, b) && #[trigger] r(b, c) implies r(a, c) by {
        lemma_transitive(a, b, c);
    }
    assert forall|a: Seq<char>, b: Seq<char>| #[trigger] r(a, b) || #[trigger] r(b, a) by {
        lemma_connected(a, b);
    }
}

/// The sorted sequence depends only on which texts there are and how often, not
/// on where they stand.
pub proof fn in_order_of_rearranged(v: Seq<Seq<char>>, w: Seq<Seq<char>>)
    requires
        v.to_multiset() == w.to_multiset(),
    ensures
        in_order(v) == in_order(w),
{
    text_order_is_total();
    v.lemma_sort_by_ensures(text_order());
    w.lemma_sort_by_ensures(text_order());
    lemma_sorted_unique(in_order(v), in_order(w), text_order());
}

/// Whether `a` comes no later than `b` in the lexicographic order.
pub fn no_later(a: &str, b: &str) -> (r: bool)
    ensures
        r == text_leq(a@, b@),
{
    let x = chars_of(a);
    let y = chars_of(b);
    let mut i: usize = 0;
    proof {
        assert(a@.skip(0) =~= a@);
        assert(b@.skip(0) =~= b@);
    }
    loop
        invariant
            x@ == a@,
            y@ == b@,
            i <= x.len(),
            i <= y.len(),
            text_leq(a@, b@) == text_leq(a@.skip(i as int), b@.skip(i as int)),
        decreases x.len() - i,
    {
        if i == x.len() {
            return true;
        }
        if i == y.len() {
            return false;
        }
        if x[i] != y[i] {
            return x[i] < y[i];
        }
        proof {
            assert(a@.skip(i as int).drop_first() =~= a@.skip(i + 1));
            assert(b@.skip(i as int).drop_first() =~= b@.skip(i + 1));
        }
        i = i + 1;
    }
}

/// Sorts texts lexicographically.
pub fn sort(texts: Vec<String>) -> (r: Vec<String>)
    ensures
        r.deep_view() == in_order(texts.deep_view()),
{
    let mut rest = texts;
    let ghost all = texts.deep_view();
    let mut r: Vec<String> = Vec::new();
    proof {
        text_order_is_total();
        assert(rest.deep_view() + r.deep_view() =~= all);
    }
    loop
        invariant
            total_ordering(text_order()),
            sorted_by(r.deep_view(), text_order()),
            (rest.deep_view() + r.deep_view()).to_multiset() == all.to_multiset(),
        ensures
            sorted_by(r.deep_view(), text_order()),
            r.deep_view().to_multiset() == all.to_multiset(),
        decreases rest.len(),
    {
        let ghost rest0 = rest.deep_view();
        let ghost r0 = r.deep_view();
        match rest.pop() {
            None => {
                assert(rest0 + r0 =~= r0);
                break ;
            },
            Some(t) => {
                let mut i: usize = 0;
                while i < r.len() && no_later(r[i].as_str(), t.as_str())
                    invariant
                        i <= r.len(),
                        r.deep_view() == r0,
                        forall|j: int| 0 <= j < i ==> text_leq(#[trigger] r0[j], t@),
                    decreases r.len() - i,
                {
                    assert(r0[i as int] == r[i as int]@);
                    i = i + 1;
                }
                proof {
                    if i < r.len() {
                        assert(r0[i as int] == r[i as int]@);
                    }
                    lemma_insert_sorted(r0, i as int, t@);
                    assert(rest0 =~= rest.deep_view().push(t@));
                    assert(rest0 + r0 =~= (rest.deep_view() + r0).insert(
                        rest.deep_view().len() as int,
                        t@,
                    ));
                    to_multiset_insert(rest.deep_view() + r0, rest.deep_view().len() as int, t@);
                    to_multiset_insert(
                        rest.deep_view() + r0,
                        rest.deep_view().len() as int + i,
                        t@,
                    );
                    assert((rest.deep_view() + r0).insert(
                        rest.deep_view().len() as int + i,
                        t@,
                    ) =~= rest.deep_view() + r0.insert(i as int, t@));
                }
                r.insert(i, t);
                assert(r.deep_view() =~= r0.insert(i as int, t@));
            },
        }
    }
    proof {
        all.lemma_sort_by_ensures(text_order());
        lemma_sorted_unique(r.deep_view(), in_order(all), text_order());
    }
    r
}

proof fn lemma_insert_sorted(r: Seq<Seq<char>>, i: int, t: Seq<char>)
    requires
        total_ordering(text_order()),
        sorted_by(r, text_order()),
        0 <= i <= r.len(),
        forall|j: int| 0 <= j < i ==> text_leq(#[trigger] r[j], t),
        i < r.len() ==> !text_leq(r[i], t),
    ensures
        sorted_by(r.insert(i, t), text_order()),
{
    let order = text_order();
    let s = r.insert(i, t);
    assert forall|j: int| i <= j < r.len() implies text_leq(t, #[trigger] r[j]) by {
        lemma_connected(r[i], t);
        if j > i {
            assert(order(r[i], r[j]));
            lemma_transitive(t, r[i], r[j]);
        }
    }
    assert forall|j: int, k: int| 0 <= j < k < s.len() implies #[trigger] order(s[j], s[k]) by {
        if j < i && k < i {
            assert(order(r[j], r[k]));
        } else if j < i && k > i {
            assert(order(r[j], r[k - 1]));
        } else if j > i {
            assert(order(r[j - 1], r[k - 1]));
        } else if j < i {
            assert(s[j] == r[j] && s[k] == t);
        } else {
            assert(s[j] == t && s[k] == r[k - 1]);
        }
    }
}

/// The order of texts is the lexicographic one: the first character in which two texts
/// differ decides, whatever follows it.
pub proof fn first_difference_orders(a: Seq<char>, b: Seq<char>, i: int)
    requires
        0 <= i < a.len(),
        i < b.len(),
        forall|j: int| 0 <= j < i ==> a[j] == b[j],
        a[i] < b[i],
    ensures
        text_leq(a, b),
        !text_leq(b, a),
    decreases i,
{
    if i > 0 {
        let x = a.drop_first();
        let y = b.drop_first();
        assert(a[0] == b[0]);
        assert forall|j: int| 0 <= j < i - 1 implies x[j] == y[j] by {
            assert(a[j + 1] == b[j + 1]);
        }
        first_difference_orders(x, y, i - 1);
    }
}

/// A text comes no later than any text that it starts, and what goes on comes no earlier
/// than its start unless it is the same.
pub proof fn prefix_comes_first(a: Seq<char>, more: Seq<char>)
    ensures
        text_leq(a, a + more),
        more.len() > 0 ==> !text_leq(a + more, a),
    decreases a.len(),
{
    if a.len() > 0 {
        assert((a + more).drop_first() =~= a.drop_first() + more);
        prefix_comes_first(a.drop_first(), more);
    }
}

/// Sorting keeps every text as often as it is there, and puts none before one that comes
/// earlier.
pub proof fn in_order_is_sorted(v: Seq<Seq<char>>)
    ensures
        in_order(v).to_multiset() == v.to_multiset(),
        in_order(v).len() == v.len(),
        forall|i: int, j: int|
            0 <= i < j < in_order(v).len() ==> text_leq(
                #[trigger] in_order(v)[i],
                #[trigger] in_order(v)[j],
            ),
{
    text_order_is_total();
    let order = text_order();
    v.lemma_sort_by_ensures(order);
    v.to_multiset_ensures();
    in_order(v).to_multiset_ensures();
    assert forall|i: int, j: int| 0 <= i < j < in_order(v).len() implies text_leq(
        #[trigger] in_order(v)[i],
        #[trigger] in_order(v)[j],
    ) by {
        assert(order(in_order(v)[i], in_order(v)[j]));
    }
}

} // verus!
