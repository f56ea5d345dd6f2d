//! Orders: which of many comes first, by text or by number.

use crate::text::{chars_of, lemma_texts_push, texts};
use vstd::prelude::*;
use vstd::string::*;

verus! {

broadcast use lemma_texts_push;

// ── Orders of places ───────────────────────────────────────────────────────
/// Behind how many of the places in `order` the place `x` comes: behind the
/// last one that it does not come before.
pub open spec fn slot(order: Seq<int>, x: int, before: spec_fn(int, int) -> bool) -> int
    decreases order.len(),
{
    if order.len() == 0 {
        0
    } else if before(x, order.last()) {
        slot(order.drop_last(), x, before)
    } else {
        order.len() as int
    }
}

/// The places from 0 to before `n`, in order. Places of which none comes before
/// the other stay as they are.
pub open spec fn sorted_order(n: nat, before: spec_fn(int, int) -> bool) -> Seq<int>
    decreases n,
{
    if n == 0 {
        Seq::empty()
    } else {
        let rest = sorted_order((n - 1) as nat, before);
        rest.insert(slot(rest, n - 1, before), n - 1)
    }
}

/// A relation that puts things in order: what does not come before another one
/// does not come before what that one does not come before.
pub open spec fn is_order(n: nat, before: spec_fn(int, int) -> bool) -> bool {
    &&& forall|i: int, j: int|
        0 <= i < n && 0 <= j < n && #[trigger] before(i, j) ==> !before(j, i)
    &&& forall|i: int, j: int, k: int|
        0 <= i < n && 0 <= j < n && 0 <= k < n && !(#[trigger] before(i, j)) && !(
        #[trigger] before(j, k)) ==> !before(i, k)
}

/// One place may stand ahead of another.
pub open spec fn ahead(i: int, j: int, before: spec_fn(int, int) -> bool) -> bool {
    before(i, j) || !before(j, i) && i < j
}

/// Each of the first `n` places once, in order.
pub open spec fn is_sorted(order: Seq<int>, n: nat, before: spec_fn(int, int) -> bool) -> bool {
    &&& order.len() == n
    &&& forall|a: int| 0 <= a < n ==> 0 <= #[trigger] order[a] < n
    &&& forall|a: int, b: int|
        0 <= a < b < n ==> ahead(#[trigger] order[a], #[trigger] order[b], before)
}

/// A place is put among the others.
pub proof fn lemma_slot_bound(order: Seq<int>, x: int, before: spec_fn(int, int) -> bool)
    ensures
        0 <= slot(order, x, before) <= order.len(),
        forall|a: int|
            slot(order, x, before) <= a < order.len() ==> before(x, #[trigger] order[a]),
        slot(order, x, before) > 0 ==> !before(x, order[slot(order, x, before) - 1]),
    decreases order.len(),
{
    if order.len() > 0 && before(x, order.last()) {
        let front = order.drop_last();
        lemma_slot_bound(front, x, before);
        assert forall|a: int| slot(order, x, before) <= a < order.len() implies before(
            x,
            #[trigger] order[a],
        ) by {
            if a < front.len() {
                assert(front[a] == order[a]);
            }
        }
    }
}

/// Sorting gives each place once, in order, and leaves places of which none
/// comes before the other as they were.
pub proof fn law_sorting_sorts(n: nat, before: spec_fn(int, int) -> bool)
    requires
        is_order(n, before),
    ensures
        is_sorted(sorted_order(n, before), n, before),
    decreases n,
{
    if n > 0 {
        let m = (n - 1) as nat;
        let rest = sorted_order(m, before);
        let x = n - 1;
        law_sorting_sorts(m, before);
        lemma_slot_bound(rest, x, before);
        let p = slot(rest, x, before);
        let all = rest.insert(p, x);
        assert forall|a: int| 0 <= a < n implies 0 <= #[trigger] all[a] < n by {
            if a < p {
                assert(all[a] == rest[a]);
            } else if a > p {
                assert(all[a] == rest[a - 1]);
            }
        }
        assert forall|a: int, b: int| 0 <= a < b < n implies ahead(
            #[trigger] all[a],
            #[trigger] all[b],
            before,
        ) by {
            let u = if a < p {
                a
            } else {
                a - 1
            };
            let v = if b < p {
                b
            } else {
                b - 1
            };
            if a != p {
                assert(all[a] == rest[u]);
            }
            if b != p {
                assert(all[b] == rest[v]);
            }
            if a != p && b != p {
                assert(ahead(rest[u], rest[v], before));
            } else if a == p {
                assert(before(x, rest[v]));
            } else {
                let last = rest[p - 1];
                assert(!before(x, last));
                if u < p - 1 {
                    assert(ahead(rest[u], last, before));
                    assert(!before(last, rest[u]));
                }
                assert(!before(x, rest[u]));
            }
        }
    }
}

/// Sorting leaves no place out.
pub proof fn lemma_sorting_has_all(n: nat, before: spec_fn(int, int) -> bool, i: int)
    requires
        0 <= i < n,
    ensures
        sorted_order(n, before).contains(i),
    decreases n,
{
    let rest = sorted_order((n - 1) as nat, before);
    lemma_slot_bound(rest, n - 1, before);
    let p = slot(rest, n - 1, before);
    let all = rest.insert(p, n - 1);
    if i == n - 1 {
        assert(all[p] == i);
    } else {
        lemma_sorting_has_all((n - 1) as nat, before, i);
        let a = choose|a: int| 0 <= a < rest.len() && rest[a] == i;
        if a < p {
            assert(all[a] == i);
        } else {
            assert(all[a + 1] == i);
        }
    }
}

/// The places as numbers.
pub open spec fn places(v: Seq<usize>) -> Seq<int> {
    v.map_values(|i: usize| i as int)
}

// ── Texts ──────────────────────────────────────────────────────────────────
/// One text comes before another: at the first difference it has the lower
/// character, or it ends there.
pub open spec fn text_less(a: Seq<char>, b: Seq<char>) -> bool
    decreases a.len(),
{
    if b.len() == 0 {
        false
    } else if a.len() == 0 {
        true
    } else if a[0] == b[0] {
        text_less(a.skip(1), b.skip(1))
    } else {
        a[0] < b[0]
    }
}

proof fn lemma_text_less(a: Seq<char>, b: Seq<char>)
    ensures
        text_less(a, b) ==> !text_less(b, a),
        !text_less(a, b) && !text_less(b, a) ==> a == b,
    decreases a.len(),
{
    if a.len() > 0 && b.len() > 0 && a[0] == b[0] {
        lemma_text_less(a.skip(1), b.skip(1));
        if a.skip(1) == b.skip(1) {
            assert(a =~= seq![a[0]] + a.skip(1));
            assert(b =~= seq![b[0]] + b.skip(1));
        }
    } else if a.len() == 0 && b.len() == 0 {
        assert(a =~= b);
    }
}

proof fn lemma_text_less_transitive(a: Seq<char>, b: Seq<char>, c: Seq<char>)
    requires
        !text_less(a, b),
        !text_less(b, c),
    ensures
        !text_less(a, c),
    decreases a.len(),
{
    if a.len() > 0 && b.len() > 0 && c.len() > 0 && a[0] == b[0] && b[0] == c[0] {
        lemma_text_less_transitive(a.skip(1), b.skip(1), c.skip(1));
    }
}

/// Texts are in one order only: of two different ones exactly one comes first,
/// and what comes before what comes before a third comes before it.
pub proof fn law_texts_are_in_order(a: Seq<char>, b: Seq<char>, c: Seq<char>)
    ensures
        !(text_less(a, b) && text_less(b, a)),
        a != b ==> text_less(a, b) || text_less(b, a),
        text_less(a, b) && text_less(b, c) ==> text_less(a, c),
{
    lemma_text_less(a, b);
    lemma_text_less(b, c);
    lemma_text_less(a, c);
    if text_less(a, b) && text_less(b, c) && !text_less(a, c) {
        lemma_text_less_transitive(b, a, c);
        if a == c {
        } else {
            assert(text_less(c, a));
        }
        assert(!text_less(b, a));
        assert(!text_less(b, c));
    }
}

/// Whether one text comes before another.
pub fn comes_before(a: &str, b: &str) -> (r: bool)
    ensures
        r == text_less(a@, b@),
{
    let x = chars_of(a);
    let y = chars_of(b);
    let mut i: usize = 0;
    assert(a@.skip(0) =~= a@);
    assert(b@.skip(0) =~= b@);
    while i < x.len() && i < y.len()
        invariant
            x@ == a@,
            y@ == b@,
            i <= x@.len(),
            i <= y@.len(),
            text_less(a@, b@) == text_less(a@.skip(i as int), b@.skip(i as int)),
        decreases x@.len() - i,
    {
        proof {
            assert(a@.skip(i as int)[0] == x@[i as int]);
            assert(b@.skip(i as int)[0] == y@[i as int]);
            assert(a@.skip(i as int).skip(1) =~= a@.skip(i + 1));
            assert(b@.skip(i as int).skip(1) =~= b@.skip(i + 1));
        }
        if x[i] != y[i] {
            return x[i] < y[i];
        }
        i += 1;
    }
    i < y.len()
}

/// Places in the order of their texts.
pub open spec fn by_text(keys: Seq<Seq<char>>) -> spec_fn(int, int) -> bool {
    |i: int, j: int| text_less(keys[i], keys[j])
}

/// To go by text is an order.
pub proof fn lemma_by_text_is_order(keys: Seq<Seq<char>>)
    ensures
        is_order(keys.len(), by_text(keys)),
{
    let before = by_text(keys);
    let n = keys.len();
    assert forall|i: int, j: int| 0 <= i < n && 0 <= j < n && #[trigger] before(i, j) implies
        !before(j, i) by {
        lemma_text_less(keys[i], keys[j]);
    }
    assert forall|i: int, j: int, k: int|
        0 <= i < n && 0 <= j < n && 0 <= k < n && !(#[trigger] before(i, j)) && !(
        #[trigger] before(j, k)) implies !before(i, k) by {
        lemma_text_less_transitive(keys[i], keys[j], keys[k]);
    }
}

/// The places of texts, in the order of the texts.
pub fn order_texts(keys: &[String]) -> (r: Vec<usize>)
    ensures
        places(r@) == sorted_order(keys@.len(), by_text(texts(keys@))),
        r@.len() == keys@.len(),
        forall|a: int| 0 <= a < r@.len() ==> (#[trigger] r@[a]) < keys@.len(),
{
    let ghost all = texts(keys@);
    let ghost before = by_text(all);
    let mut order: Vec<usize> = Vec::new();
    let mut n: usize = 0;
    assert(places(order@) =~= sorted_order(0, before));
    while n < keys.len()
        invariant
            n <= keys@.len(),
            all == texts(keys@),
            before == by_text(all),
            order@.len() == n,
            places(order@) == sorted_order(n as nat, before),
            forall|a: int| 0 <= a < n ==> (#[trigger] order@[a]) < keys@.len(),
        decreases keys@.len() - n,
    {
        let ghost rest = places(order@);
        let mut at: usize = n;
        assert(rest.take(n as int) =~= rest);
        while at > 0 && comes_before(keys[n].as_str(), keys[order[at - 1]].as_str())
            invariant
                at <= n < keys@.len(),
                all == texts(keys@),
                before == by_text(all),
                order@.len() == n,
                rest == places(order@),
                forall|a: int| 0 <= a < n ==> (#[trigger] order@[a]) < keys@.len(),
                slot(rest.take(at as int), n as int, before) == slot(rest, n as int, before),
            decreases at,
        {
            proof {
                assert(rest.take(at as int).last() == order@[at - 1] as int);
                assert(rest.take(at as int).drop_last() =~= rest.take(at - 1));
                assert(before(n as int, order@[at - 1] as int));
            }
            at -= 1;
        }
        proof {
            if at > 0 {
                assert(rest.take(at as int).last() == order@[at - 1] as int);
                assert(!before(n as int, order@[at - 1] as int));
            }
        }
        order.insert(at, n);
        assert(places(order@) =~= rest.insert(at as int, n as int));
        n += 1;
    }
    order
}

/// Texts in order.
pub open spec fn in_text_order(keys: Seq<Seq<char>>) -> Seq<Seq<char>> {
    sorted_order(keys.len(), by_text(keys)).map_values(|i: int| keys[i])
}

/// Texts in order are the same texts, and none of them comes before an earlier
/// one; where the texts differ, each comes before the next.
pub proof fn law_texts_in_order(keys: Seq<Seq<char>>)
    ensures
        in_text_order(keys).len() == keys.len(),
        forall|a: int, b: int|
            0 <= a < b < keys.len() ==> !text_less(
                #[trigger] in_text_order(keys)[b],
                #[trigger] in_text_order(keys)[a],
            ),
        forall|t: Seq<char>| #[trigger] in_text_order(keys).contains(t) <==> keys.contains(t),
        keys.no_duplicates() ==> forall|a: int, b: int|
            0 <= a < b < keys.len() ==> text_less(
                #[trigger] in_text_order(keys)[a],
                #[trigger] in_text_order(keys)[b],
            ),
{
    let before = by_text(keys);
    lemma_by_text_is_order(keys);
    law_sorting_sorts(keys.len(), before);
    let order = sorted_order(keys.len(), before);
    let all = in_text_order(keys);
    assert forall|a: int, b: int| 0 <= a < b < keys.len() implies !text_less(
        #[trigger] all[b],
        #[trigger] all[a],
    ) by {
        assert(ahead(order[a], order[b], before));
        assert(!before(order[b], order[a]));
    }
    assert forall|t: Seq<char>| #[trigger] all.contains(t) <==> keys.contains(t) by {
        if all.contains(t) {
            let a = choose|a: int| 0 <= a < all.len() && all[a] == t;
            assert(0 <= order[a] < keys.len());
            assert(keys[order[a]] == t);
        }
        if keys.contains(t) {
            let i = choose|i: int| 0 <= i < keys.len() && keys[i] == t;
            lemma_sorting_has_all(keys.len(), before, i);
            let a = choose|a: int| 0 <= a < order.len() && order[a] == i;
            assert(all[a] == t);
        }
    }
    if keys.no_duplicates() {
        assert forall|a: int, b: int| 0 <= a < b < keys.len() implies text_less(
            #[trigger] all[a],
            #[trigger] all[b],
        ) by {
            assert(ahead(order[a], order[b], before));
            assert(order[a] != order[b]);
            assert(keys[order[a]] != keys[order[b]]);
            lemma_text_less(keys[order[a]], keys[order[b]]);
        }
    }
}

/// Texts in order.
pub fn sort_texts(keys: &[String]) -> (r: Vec<String>)
    ensures
        texts(r@) == in_text_order(texts(keys@)),
{
    let ghost all = in_text_order(texts(keys@));
    let order = order_texts(keys);
    let mut out: Vec<String> = Vec::new();
    let mut i: usize = 0;
    assert(places(order@).len() == order@.len());
    assert(texts(out@) =~= all.take(0));
    while i < order.len()
        invariant
            i <= order@.len() == keys@.len() == all.len(),
            all == in_text_order(texts(keys@)),
            places(order@) == sorted_order(keys@.len(), by_text(texts(keys@))),
            forall|a: int| 0 <= a < order@.len() ==> (#[trigger] order@[a]) < keys@.len(),
            texts(out@) == all.take(i as int),
        decreases order@.len() - i,
    {
        out.push(keys[order[i]].clone());
        proof {
            assert(places(order@)[i as int] == order@[i as int] as int);
            assert(texts(out@) =~= all.take(i + 1));
        }
        i += 1;
    }
    assert(all.take(i as int) =~= all);
    out
}

// ── Numbers ────────────────────────────────────────────────────────────────
/// Places with the greatest number first.
pub open spec fn by_number(keys: Seq<i64>) -> spec_fn(int, int) -> bool {
    |i: int, j: int| keys[i] > keys[j]
}

/// To go by number is an order.
pub proof fn lemma_by_number_is_order(keys: Seq<i64>)
    ensures
        is_order(keys.len(), by_number(keys)),
{
}

/// The places of numbers, the greatest number first.
pub fn order_numbers(keys: &[i64]) -> (r: Vec<usize>)
    ensures
        places(r@) == sorted_order(keys@.len(), by_number(keys@)),
        r@.len() == keys@.len(),
        forall|a: int| 0 <= a < r@.len() ==> (#[trigger] r@[a]) < keys@.len(),
{
    let ghost before = by_number(keys@);
    let mut order: Vec<usize> = Vec::new();
    let mut n: usize = 0;
    assert(places(order@) =~= sorted_order(0, before));
    while n < keys.len()
        invariant
            n <= keys@.len(),
            before == by_number(keys@),
            order@.len() == n,
            places(order@) == sorted_order(n as nat, before),
            forall|a: int| 0 <= a < n ==> (#[trigger] order@[a]) < keys@.len(),
        decreases keys@.len() - n,
    {
        let ghost rest = places(order@);
        let mut at: usize = n;
        assert(rest.take(n as int) =~= rest);
        while at > 0 && keys[n] > keys[order[at - 1]]
            invariant
                at <= n < keys@.len(),
                before == by_number(keys@),
                order@.len() == n,
                rest == places(order@),
                forall|a: int| 0 <= a < n ==> (#[trigger] order@[a]) < keys@.len(),
                slot(rest.take(at as int), n as int, before) == slot(rest, n as int, before),
            decreases at,
        {
            proof {
                assert(rest.take(at as int).last() == order@[at - 1] as int);
                assert(rest.take(at as int).drop_last() =~= rest.take(at - 1));
                assert(before(n as int, order@[at - 1] as int));
            }
            at -= 1;
        }
        proof {
            if at > 0 {
                assert(rest.take(at as int).last() == order@[at - 1] as int);
                assert(!before(n as int, order@[at - 1] as int));
            }
        }
        order.insert(at, n);
        assert(places(order@) =~= rest.insert(at as int, n as int));
        n += 1;
    }
    order
}

} // verus!
