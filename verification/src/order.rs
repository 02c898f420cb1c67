//! Stable ordering by textual keys.
//!
//! A key is a sequence of code points, compared from the front. An order of some keys lists their
//! positions so that the keys ascend, and equal keys keep their places.
use vstd::prelude::*;

use crate::text::chars_of;

verus! {

/// The code points of a text.
pub open spec fn codes(s: Seq<char>) -> Seq<u32> {
    Seq::new(s.len(), |i: int| s[i] as u32)
}

/// The code points of a text.
pub fn code_points(s: &str) -> (r: Vec<u32>)
    ensures
        r@ == codes(s@),
{
    let chars = chars_of(s);
    let mut out: Vec<u32> = Vec::new();
    for i in 0..chars.len()
        invariant
            chars@ == s@,
            out@ == codes(s@).take(i as int),
    {
        out.push(chars[i] as u32);
        assert(codes(s@).take(i + 1) =~= codes(s@).take(i as int).push(s@[i as int] as u32));
    }
    assert(codes(s@).take(chars@.len() as int) =~= codes(s@));
    out
}

/// `a` comes before `b`: at the first place where they differ `a` is smaller, or `a` ends there.
pub open spec fn key_less(a: Seq<u32>, b: Seq<u32>) -> bool
    decreases a.len(),
{
    if b.len() == 0 {
        false
    } else if a.len() == 0 {
        true
    } else if a[0] != b[0] {
        a[0] < b[0]
    } else {
        key_less(a.skip(1), b.skip(1))
    }
}

/// No key comes before itself, and of two different keys exactly one comes first.
pub proof fn lemma_key_less_total(a: Seq<u32>, b: Seq<u32>)
    ensures
        !key_less(a, a),
        key_less(a, b) ==> !key_less(b, a),
        a != b ==> key_less(a, b) || key_less(b, a),
    decreases a.len(),
{
    if a.len() > 0 {
        lemma_key_less_total(a.skip(1), a.skip(1));
    }
    if a.len() > 0 && b.len() > 0 && a[0] == b[0] {
        lemma_key_less_total(a.skip(1), b.skip(1));
        if a.skip(1) == b.skip(1) {
            assert(a =~= seq![a[0]] + a.skip(1));
            assert(b =~= seq![b[0]] + b.skip(1));
        }
    }
    if a.len() == 0 && b.len() == 0 {
        assert(a =~= b);
    }
}

/// What comes before a key that comes before another comes before that other.
pub proof fn lemma_key_less_transitive(a: Seq<u32>, b: Seq<u32>, c: Seq<u32>)
    requires
        key_less(a, b),
        key_less(b, c),
    ensures
        key_less(a, c),
    decreases a.len(),
{
    if a.len() > 0 && a[0] == b[0] && b[0] == c[0] {
        lemma_key_less_transitive(a.skip(1), b.skip(1), c.skip(1));
    }
}

/// True if `a` comes before `b`.
pub fn less(a: &Vec<u32>, b: &Vec<u32>) -> (r: bool)
    ensures
        r == key_less(a@, b@),
{
    let mut i: usize = 0;
    assert(a@.skip(0) =~= a@);
    assert(b@.skip(0) =~= b@);
    while i < a.len() && i < b.len()
        invariant
            i <= a@.len(),
            i <= b@.len(),
            key_less(a@, b@) == key_less(a@.skip(i as int), b@.skip(i as int)),
        decreases a@.len() - i,
    {
        if a[i] != b[i] {
            return a[i] < b[i];
        }
        assert(a@.skip(i as int).skip(1) =~= a@.skip(i + 1));
        assert(b@.skip(i as int).skip(1) =~= b@.skip(i + 1));
        i = i + 1;
    }
    i < b.len()
}

/// The item at `i` stands before the item at `j`: by its key, or by its place if the keys agree.
pub open spec fn stands_before(keys: Seq<Seq<u32>>, i: int, j: int) -> bool {
    key_less(keys[i], keys[j]) || (keys[i] == keys[j] && i < j)
}

/// `order` lists every position of `keys`, each before all those that it stands before.
pub open spec fn is_order(keys: Seq<Seq<u32>>, order: Seq<int>) -> bool {
    &&& order.len() == keys.len()
    &&& forall|a: int| 0 <= a < order.len() ==> 0 <= #[trigger] order[a] < keys.len()
    &&& forall|i: int| 0 <= i < keys.len() ==> #[trigger] order.contains(i)
    &&& forall|a: int, b: int|
        0 <= a < b < order.len() ==> stands_before(keys, #[trigger] order[a], #[trigger] order[b])
}

/// The order of `keys`.
pub open spec fn order_of(keys: Seq<Seq<u32>>) -> Seq<int> {
    choose|order: Seq<int>| is_order(keys, order)
}

/// Keys have one order only.
pub proof fn lemma_order_is_unique(keys: Seq<Seq<u32>>, x: Seq<int>, y: Seq<int>)
    requires
        is_order(keys, x),
        is_order(keys, y),
    ensures
        x == y,
{
    assert forall|i: int| 0 <= i < x.len() implies x[i] == y[i] by {
        lemma_order_agrees(keys, x, y, i);
    }
    assert(x =~= y);
}

proof fn lemma_order_agrees(keys: Seq<Seq<u32>>, x: Seq<int>, y: Seq<int>, i: int)
    requires
        is_order(keys, x),
        is_order(keys, y),
        0 <= i < x.len(),
    ensures
        forall|k: int| 0 <= k <= i ==> x[k] == y[k],
    decreases i,
{
    if i > 0 {
        lemma_order_agrees(keys, x, y, i - 1);
    }
    let p = x[i];
    let q = y[i];
    if p != q {
        assert(y.contains(p));
        let j = choose|j: int| 0 <= j < y.len() && y[j] == p;
        assert(x.contains(q));
        let k = choose|k: int| 0 <= k < x.len() && x[k] == q;
        lemma_key_less_total(keys[p], keys[q]);
        if j < i {
            assert(x[j] == p);
            assert(stands_before(keys, x[j], x[i]));
        } else {
            assert(stands_before(keys, y[i], y[j]));
        }
        if k < i {
            assert(y[k] == q);
            assert(stands_before(keys, y[k], y[i]));
            lemma_key_less_total(keys[q], keys[q]);
        } else {
            assert(stands_before(keys, x[i], x[k]));
        }
        lemma_key_less_total(keys[p], keys[p]);
        assert(false);
    }
}

/// The contents of several keys.
pub open spec fn keys_of(v: Seq<Vec<u32>>) -> Seq<Seq<u32>> {
    Seq::new(v.len(), |i: int| v[i]@)
}

/// Positions as numbers.
pub open spec fn places(v: Seq<usize>) -> Seq<int> {
    Seq::new(v.len(), |i: int| v[i] as int)
}

/// The order of `keys`.
pub fn sort_positions(keys: &Vec<Vec<u32>>) -> (r: Vec<usize>)
    ensures
        is_order(keys_of(keys@), places(r@)),
        places(r@) == order_of(keys_of(keys@)),
{
    let ghost ks = keys_of(keys@);
    let mut out: Vec<usize> = Vec::new();
    for n in 0..keys.len()
        invariant
            ks == keys_of(keys@),
            is_order(ks.take(n as int), places(out@)),
    {
        let ghost before = places(out@);
        assert forall|a: int| 0 <= a < out@.len() implies #[trigger] out@[a] < n by {
            assert(before[a] == out@[a]);
        }
        let mut at: usize = out.len();
        while at > 0 && less(&keys[n], &keys[out[at - 1]])
            invariant
                ks == keys_of(keys@),
                n < keys@.len(),
                before == places(out@),
                is_order(ks.take(n as int), before),
                at <= out@.len(),
                out@.len() == n,
                forall|a: int| 0 <= a < out@.len() ==> #[trigger] out@[a] < n,
                forall|a: int| at <= a < n ==> key_less(ks[n as int], ks[#[trigger] before[a]]),
            ensures
                at <= out@.len(),
                forall|a: int| at <= a < n ==> key_less(ks[n as int], ks[#[trigger] before[a]]),
                at > 0 ==> !key_less(ks[n as int], ks[before[at - 1]]),
            decreases at,
        {
            assert(out@[at - 1] == before[at - 1]);
            at = at - 1;
        }
        proof {
            lemma_insert_keeps_order(ks, n as int, before, at as int);
        }
        out.insert(at, n);
        assert(places(out@) =~= before.insert(at as int, n as int));
    }
    assert(ks.take(keys@.len() as int) =~= ks);
    proof {
        lemma_order_is_unique(ks, places(out@), order_of(ks));
    }
    out
}

/// Putting the next position behind all that it does not stand before gives the next order.
proof fn lemma_insert_keeps_order(ks: Seq<Seq<u32>>, n: int, before: Seq<int>, at: int)
    requires
        0 <= n < ks.len(),
        is_order(ks.take(n), before),
        0 <= at <= n,
        forall|a: int| at <= a < n ==> key_less(ks[n], ks[#[trigger] before[a]]),
        at > 0 ==> !key_less(ks[n], ks[before[at - 1]]),
    ensures
        is_order(ks.take(n + 1), before.insert(at, n)),
{
    let keys = ks.take(n + 1);
    let after = before.insert(at, n);
    assert forall|i: int| 0 <= i < keys.len() implies #[trigger] after.contains(i) by {
        if i == n {
            assert(after[at] == n);
        } else {
            assert(before.contains(i));
            let a = choose|a: int| 0 <= a < before.len() && before[a] == i;
            if a < at {
                assert(after[a] == i);
            } else {
                assert(after[a + 1] == i);
            }
        }
    }
    assert forall|a: int, b: int| 0 <= a < b < after.len() implies stands_before(
        keys,
        #[trigger] after[a],
        #[trigger] after[b],
    ) by {
        let x = if a < at {
            a
        } else {
            a - 1
        };
        let y = if b < at {
            b
        } else {
            b - 1
        };
        if a != at && b != at {
            assert(stands_before(ks.take(n), before[x], before[y]));
        } else if b == at {
            // Everything in front of the new position has a key that is not larger.
            assert(0 <= before[a] < n);
            assert(0 <= before[at - 1] < n);
            lemma_key_less_total(ks[n], ks[before[at - 1]]);
            if a < at - 1 {
                assert(stands_before(ks.take(n), before[a], before[at - 1]));
                if key_less(ks[before[a]], ks[before[at - 1]]) && key_less(
                    ks[before[at - 1]],
                    ks[n],
                ) {
                    lemma_key_less_transitive(ks[before[a]], ks[before[at - 1]], ks[n]);
                }
            }
        } else {
            assert(key_less(ks[n], ks[before[y]]));
        }
    }
}

/// Where the next position comes: behind all that it does not stand before.
proof fn lemma_insertion_place(ks: Seq<Seq<u32>>, n: int, before: Seq<int>, from: int) -> (at: int)
    requires
        0 <= from <= before.len(),
        forall|a: int| from <= a < before.len() ==> key_less(ks[n], ks[#[trigger] before[a]]),
    ensures
        0 <= at <= before.len(),
        forall|a: int| at <= a < before.len() ==> key_less(ks[n], ks[#[trigger] before[a]]),
        at > 0 ==> !key_less(ks[n], ks[before[at - 1]]),
    decreases from,
{
    if from == 0 || !key_less(ks[n], ks[before[from - 1]]) {
        from
    } else {
        lemma_insertion_place(ks, n, before, from - 1)
    }
}

proof fn lemma_order_of_front(ks: Seq<Seq<u32>>, n: int) -> (order: Seq<int>)
    requires
        0 <= n <= ks.len(),
    ensures
        is_order(ks.take(n), order),
    decreases n,
{
    if n == 0 {
        Seq::empty()
    } else {
        let before = lemma_order_of_front(ks, n - 1);
        let at = lemma_insertion_place(ks, n - 1, before, before.len() as int);
        lemma_insert_keeps_order(ks, n - 1, before, at);
        before.insert(at, n - 1)
    }
}

/// Keys have an order.
pub proof fn lemma_order_of(keys: Seq<Seq<u32>>)
    ensures
        is_order(keys, order_of(keys)),
{
    let order = lemma_order_of_front(keys, keys.len() as int);
    assert(keys.take(keys.len() as int) =~= keys);
}

/// A character is known by its code point.
proof fn lemma_code_injective(x: char, y: char)
    requires
        x as u32 == y as u32,
    ensures
        x == y,
{
}

/// Texts with the same code points are the same.
pub proof fn lemma_codes_injective(a: Seq<char>, b: Seq<char>)
    requires
        codes(a) == codes(b),
    ensures
        a == b,
{
    assert(a.len() == codes(a).len() && b.len() == codes(b).len());
    assert forall|i: int| 0 <= i < a.len() implies a[i] == b[i] by {
        let x: char = a[i];
        let y: char = b[i];
        assert(codes(a)[i] == x as u32 && codes(b)[i] == y as u32);
        lemma_code_injective(x, y);
    }
    assert(a =~= b);
}

/// The keys of the items ascend, and none occurs twice.
pub open spec fn ascends<A>(s: Seq<A>, key: spec_fn(A) -> Seq<u32>) -> bool {
    forall|i: int, j: int|
        0 <= i < j < s.len() ==> key_less(key(#[trigger] s[i]), key(#[trigger] s[j]))
}

proof fn lemma_ascending_agrees<A>(x: Seq<A>, y: Seq<A>, key: spec_fn(A) -> Seq<u32>, n: int)
    requires
        ascends(x, key),
        ascends(y, key),
        forall|a: A| x.contains(a) <==> y.contains(a),
        0 <= n <= x.len(),
    ensures
        n <= y.len(),
        forall|k: int| 0 <= k < n ==> x[k] == #[trigger] y[k],
    decreases n,
{
    if n > 0 {
        let i = n - 1;
        lemma_ascending_agrees(x, y, key, i);
        assert(x.contains(x[i]));
        let j = choose|j: int| 0 <= j < y.len() && y[j] == x[i];
        lemma_key_less_total(key(x[i]), key(x[i]));
        if j < i {
            assert(x[j] == y[j]);
            assert(key_less(key(x[j]), key(x[i])));
        }
        if j > i {
            assert(y.contains(y[i]));
            let k = choose|k: int| 0 <= k < x.len() && x[k] == y[i];
            assert(key_less(key(y[i]), key(y[j])));
            lemma_key_less_total(key(y[i]), key(y[i]));
            lemma_key_less_total(key(y[i]), key(x[i]));
            if k < i {
                assert(x[k] == y[k]);
                assert(key_less(key(y[k]), key(y[i])));
            } else if k > i {
                assert(key_less(key(x[i]), key(x[k])));
            }
        }
    }
}

/// Items come in one ascending order only.
pub proof fn lemma_ascending_is_unique<A>(x: Seq<A>, y: Seq<A>, key: spec_fn(A) -> Seq<u32>)
    requires
        ascends(x, key),
        ascends(y, key),
        forall|a: A| x.contains(a) <==> y.contains(a),
    ensures
        x == y,
{
    lemma_ascending_agrees(x, y, key, x.len() as int);
    assert forall|a: A| y.contains(a) <==> x.contains(a) by {
        assert(x.contains(a) <==> y.contains(a));
    }
    lemma_ascending_agrees(y, x, key, y.len() as int);
    assert(x =~= y);
}

/// Keys are compared from the front: what they begin with in common makes no difference, then the
/// smaller of two different numbers decides, and a key that has ended comes first.
pub proof fn law_keys_are_compared_from_the_front(
    common: Seq<u32>,
    a: Seq<u32>,
    b: Seq<u32>,
)
    ensures
        key_less(common + a, common + b) == key_less(a, b),
        a.len() > 0 && b.len() > 0 && a[0] != b[0] ==> key_less(a, b) == (a[0] < b[0]),
        a.len() == 0 ==> key_less(a, b) == (b.len() > 0),
        b.len() == 0 ==> !key_less(a, b),
    decreases common.len(),
{
    if common.len() == 0 {
        assert(common + a =~= a);
        assert(common + b =~= b);
    } else {
        assert((common + a).skip(1) =~= common.skip(1) + a);
        assert((common + b).skip(1) =~= common.skip(1) + b);
        law_keys_are_compared_from_the_front(common.skip(1), a, b);
    }
}

/// The key of a text has the code point of each of its characters, in their places.
pub proof fn law_keys_are_code_points(s: Seq<char>, i: int)
    requires
        0 <= i < s.len(),
    ensures
        codes(s).len() == s.len(),
        codes(s)[i] == s[i] as u32,
{
}

} // verus!
