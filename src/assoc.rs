//! Association lists: sequences of key/value pairs with distinct keys, in
//! the order in which each key first appeared.

use vstd::prelude::*;

verus! {

/// `v` with the value of key `k` set to `x`: the first pair with key `k`
/// is replaced, or, when there is none, `(k, x)` is appended.
pub open spec fn assoc_put<A, B>(v: Seq<(A, B)>, k: A, x: B) -> Seq<(A, B)>
    decreases v.len(),
{
    if v.len() == 0 {
        seq![(k, x)]
    } else if v[0].0 == k {
        v.update(0, (k, x))
    } else {
        seq![v[0]] + assoc_put(v.drop_first(), k, x)
    }
}

/// The association list that puts the pairs of `v` one after another:
/// each key once, where it first appeared, with the last value given to it.
pub open spec fn assoc_of<A, B>(v: Seq<(A, B)>) -> Seq<(A, B)>
    decreases v.len(),
{
    if v.len() == 0 {
        Seq::empty()
    } else {
        assoc_put(assoc_of(v.drop_last()), v.last().0, v.last().1)
    }
}

/// Whether the keys of `v` are distinct.
pub open spec fn keys_distinct<A, B>(v: Seq<(A, B)>) -> bool {
    forall|i: int, j: int| 0 <= i < j < v.len() ==> v[i].0 != v[j].0
}

/// Whether `k` is a key of `v`.
pub open spec fn has_key<A, B>(v: Seq<(A, B)>, k: A) -> bool {
    exists|i: int| 0 <= i < v.len() && v[i].0 == k
}

/// The value that the last pair of `v` with key `k` gives.
pub open spec fn last_value<A, B>(v: Seq<(A, B)>, k: A) -> B
    recommends
        has_key(v, k),
    decreases v.len(),
{
    if v.len() == 0 {
        arbitrary()
    } else if v.last().0 == k {
        v.last().1
    } else {
        last_value(v.drop_last(), k)
    }
}

/// Putting a key replaces its first pair, or appends a pair when the key
/// is new.
pub proof fn lemma_assoc_put<A, B>(v: Seq<(A, B)>, k: A, x: B, j: int)
    requires
        0 <= j <= v.len(),
        forall|i: int| 0 <= i < j ==> v[i].0 != k,
        j < v.len() ==> v[j].0 == k,
    ensures
        assoc_put(v, k, x) == if j < v.len() {
            v.update(j, (k, x))
        } else {
            v.push((k, x))
        },
    decreases v.len(),
{
    if v.len() == 0 {
        assert(seq![(k, x)] =~= v.push((k, x)));
    } else if v[0].0 == k {
    } else {
        lemma_assoc_put(v.drop_first(), k, x, j - 1);
        if j < v.len() {
            assert(seq![v[0]] + v.drop_first().update(j - 1, (k, x)) =~= v.update(j, (k, x)));
        } else {
            assert(seq![v[0]] + v.drop_first().push((k, x)) =~= v.push((k, x)));
        }
    }
}

/// Putting a key keeps the keys distinct, adds exactly that key, and makes
/// it give the value put.
pub proof fn lemma_assoc_put_keys<A, B>(v: Seq<(A, B)>, k: A, x: B)
    requires
        keys_distinct(v),
    ensures
        keys_distinct(assoc_put(v, k, x)),
        forall|a: A| #[trigger] has_key(assoc_put(v, k, x), a) <==> (has_key(v, a) || a == k),
        forall|i: int|
            0 <= i < assoc_put(v, k, x).len() ==> (#[trigger] assoc_put(v, k, x)[i]).0 == k
                ==> assoc_put(v, k, x)[i].1 == x,
        forall|i: int|
            0 <= i < assoc_put(v, k, x).len() && (#[trigger] assoc_put(v, k, x)[i]).0 != k
                ==> exists|j: int| 0 <= j < v.len() && v[j] == assoc_put(v, k, x)[i],
{
    let r = assoc_put(v, k, x);
    let j = if has_key(v, k) {
        choose|i: int| 0 <= i < v.len() && v[i].0 == k
    } else {
        v.len() as int
    };
    assert forall|i: int| 0 <= i < j implies v[i].0 != k by {
        if has_key(v, k) {
            assert(v[j].0 == k);
        }
    }
    lemma_assoc_put(v, k, x, j);
    if j < v.len() {
        assert(r.len() == v.len());
        assert forall|i: int| 0 <= i < r.len() && i != j implies #[trigger] r[i] == v[i] by {}
        assert(r[j] == (k, x));
    } else {
        assert(r.len() == v.len() + 1);
        assert forall|i: int| 0 <= i < v.len() implies #[trigger] r[i] == v[i] by {}
        assert(r[j] == (k, x));
    }
    assert forall|a: A| #[trigger] has_key(r, a) <==> (has_key(v, a) || a == k) by {
        if has_key(v, a) {
            let i = choose|i: int| 0 <= i < v.len() && v[i].0 == a;
            if i == j {
                assert(r[j].0 == a);
            } else {
                assert(r[i] == v[i]);
            }
        }
        if a == k {
            assert(r[j].0 == a);
        }
        if has_key(r, a) && a != k {
            let i = choose|i: int| 0 <= i < r.len() && r[i].0 == a;
            assert(i != j);
            assert(r[i] == v[i]);
        }
    }
    assert forall|i1: int, i2: int| 0 <= i1 < i2 < r.len() implies r[i1].0 != r[i2].0 by {
        if i1 == j {
            assert(r[i2] == v[i2]);
        } else if i2 == j {
            assert(r[i1] == v[i1]);
        } else {
            assert(r[i1] == v[i1] && r[i2] == v[i2]);
        }
    }
    assert forall|i: int| 0 <= i < r.len() && (#[trigger] r[i]).0 != k implies exists|m: int|
        0 <= m < v.len() && v[m] == r[i] by {
        assert(i != j);
        assert(v[i] == r[i]);
    }
}

/// An association list built from pairs has distinct keys, the keys of
/// the pairs, and for each key the value of the last pair that has it.
pub proof fn lemma_assoc_of<A, B>(v: Seq<(A, B)>)
    ensures
        keys_distinct(assoc_of(v)),
        forall|a: A| #[trigger] has_key(assoc_of(v), a) <==> has_key(v, a),
        forall|i: int|
            0 <= i < assoc_of(v).len() ==> (#[trigger] assoc_of(v)[i]).1 == last_value(
                v,
                assoc_of(v)[i].0,
            ),
    decreases v.len(),
{
    if v.len() > 0 {
        let p = v.drop_last();
        lemma_assoc_of(p);
        let (k, x) = v.last();
        lemma_assoc_put_keys(assoc_of(p), k, x);
        let r = assoc_of(v);
        assert forall|a: A| has_key(r, a) <==> has_key(v, a) by {
            if has_key(p, a) {
                let i = choose|i: int| 0 <= i < p.len() && p[i].0 == a;
                assert(v[i].0 == a);
            }
            if has_key(v, a) && a != k {
                let i = choose|i: int| 0 <= i < v.len() && v[i].0 == a;
                assert(p[i].0 == a);
            }
            if a == k {
                assert(v[v.len() - 1].0 == a);
            }
        }
        assert forall|i: int| 0 <= i < r.len() implies (#[trigger] r[i]).1 == last_value(
            v,
            r[i].0,
        ) by {
            if r[i].0 != k {
                let j = choose|j: int| 0 <= j < assoc_of(p).len() && assoc_of(p)[j] == r[i];
            }
        }
    }
}

} // verus!
