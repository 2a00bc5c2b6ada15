//! Sorted sequences under a strict order.

use vstd::prelude::*;

verus! {

/// Whether `s` is strictly increasing under `lt`.
pub open spec fn strictly_sorted<A>(s: Seq<A>, lt: spec_fn(A, A) -> bool) -> bool {
    forall|i: int, j: int| 0 <= i < j < s.len() ==> lt(s[i], s[j])
}

/// Whether `lt` is irreflexive and asymmetric on the set.
pub open spec fn asymmetric_on<A>(lt: spec_fn(A, A) -> bool, d: Set<A>) -> bool {
    forall|a: A, b: A| d.contains(a) && d.contains(b) && #[trigger] lt(a, b) ==> !lt(b, a)
}

/// Two strictly sorted sequences with the same elements are equal.
pub proof fn lemma_sorted_unique<A>(s: Seq<A>, t: Seq<A>, lt: spec_fn(A, A) -> bool)
    requires
        strictly_sorted(s, lt),
        strictly_sorted(t, lt),
        s.to_set() == t.to_set(),
        asymmetric_on(lt, s.to_set()),
    ensures
        s == t,
    decreases s.len(),
{
    if s.len() == 0 {
        if t.len() > 0 {
            assert(t.to_set().contains(t[0]));
        }
        assert(s =~= t);
    } else {
        assert(s.to_set().contains(s[0]));
        assert(t.len() > 0);
        assert(t.to_set().contains(t[0]));
        if s[0] != t[0] {
            let k = s.index_of(t[0]);
            let m = t.index_of(s[0]);
            assert(k > 0 && lt(s[0], s[k]));
            assert(m > 0 && lt(t[0], t[m]));
            assert(false);
        }
        let (s1, t1) = (s.drop_first(), t.drop_first());
        assert forall|x: A| s1.to_set().contains(x) <==> t1.to_set().contains(x) by {
            if s1.to_set().contains(x) {
                let i = s1.index_of(x);
                assert(s[i + 1] == x);
                assert(lt(s[0], x));
                assert(x != s[0]);
                assert(t.to_set().contains(x));
                let j = t.index_of(x);
                assert(j != 0);
                assert(t1[j - 1] == x);
            }
            if t1.to_set().contains(x) {
                let j = t1.index_of(x);
                assert(t[j + 1] == x);
                assert(lt(t[0], x));
                assert(x != t[0]);
                assert(s.to_set().contains(x));
                let i = s.index_of(x);
                assert(i != 0);
                assert(s1[i - 1] == x);
            }
        }
        assert(s1.to_set() =~= t1.to_set());
        assert forall|a: A, b: A| s1.to_set().contains(a) && s1.to_set().contains(b) && #[trigger] lt(a, b) implies !lt(b, a) by {
            let i = s1.index_of(a);
            let j = s1.index_of(b);
            assert(s.to_set().contains(s[i + 1]));
            assert(s.to_set().contains(s[j + 1]));
        }
        lemma_sorted_unique(s1, t1, lt);
        assert(s =~= seq![s[0]] + s1);
        assert(t =~= seq![t[0]] + t1);
    }
}

/// A strictly sorted sequence under an irreflexive order has no duplicates.
pub proof fn lemma_sorted_no_duplicates<A>(s: Seq<A>, lt: spec_fn(A, A) -> bool)
    requires
        strictly_sorted(s, lt),
        forall|a: A| s.contains(a) ==> !lt(a, a),
    ensures
        s.no_duplicates(),
{
    assert forall|i: int, j: int| 0 <= i < s.len() && 0 <= j < s.len() && i != j implies s[i] != s[j] by {
        if s[i] == s[j] {
            if i < j {
                assert(lt(s[i], s[j]));
            } else {
                assert(lt(s[j], s[i]));
            }
            assert(s.contains(s[i]));
        }
    }
}


/// Whether `lt` is a strict total order on the set.
pub open spec fn strict_total_on<A>(lt: spec_fn(A, A) -> bool, d: Set<A>) -> bool {
    &&& forall|a: A| d.contains(a) ==> !#[trigger] lt(a, a)
    &&& forall|a: A, b: A, c: A| d.contains(a) && d.contains(b) && d.contains(c)
        && #[trigger] lt(a, b) && #[trigger] lt(b, c) ==> lt(a, c)
    &&& forall|a: A, b: A| d.contains(a) && d.contains(b) && a != b ==> #[trigger] lt(a, b) || lt(b, a)
}

/// A finite non-empty set has a least element under a strict total order.
pub proof fn lemma_least_exists<A>(d: Set<A>, lt: spec_fn(A, A) -> bool) -> (m: A)
    requires
        d.finite(),
        d.len() > 0,
        strict_total_on(lt, d),
    ensures
        d.contains(m),
        forall|y: A| d.contains(y) && y != m ==> lt(m, y),
    decreases d.len(),
{
    let x = d.choose();
    if d.len() == 1 {
        assert forall|y: A| d.contains(y) implies y == x by {
            if y != x {
                assert(d.remove(x).contains(y));
            }
        }
        x
    } else {
        let r = d.remove(x);
        assert forall|a: A, b: A, c: A| r.contains(a) && r.contains(b) && r.contains(c)
            && #[trigger] lt(a, b) && #[trigger] lt(b, c) implies lt(a, c) by {}
        let m2 = lemma_least_exists(r, lt);
        if lt(x, m2) {
            assert forall|y: A| d.contains(y) && y != x implies lt(x, y) by {
                if y != m2 {
                    assert(r.contains(y));
                    assert(lt(m2, y));
                }
            }
            x
        } else {
            assert(lt(m2, x));
            m2
        }
    }
}

/// A finite set can be listed in strictly increasing order.
pub proof fn lemma_sorted_listing_exists<A>(d: Set<A>, lt: spec_fn(A, A) -> bool) -> (ks: Seq<A>)
    requires
        d.finite(),
        strict_total_on(lt, d),
    ensures
        ks.to_set() == d,
        strictly_sorted(ks, lt),
    decreases d.len(),
{
    if d.len() == 0 {
        assert(d =~= Set::empty());
        assert(Seq::<A>::empty().to_set() =~= d);
        Seq::empty()
    } else {
        let m = lemma_least_exists(d, lt);
        let r = d.remove(m);
        assert forall|a: A, b: A, c: A| r.contains(a) && r.contains(b) && r.contains(c)
            && #[trigger] lt(a, b) && #[trigger] lt(b, c) implies lt(a, c) by {}
        let rest = lemma_sorted_listing_exists(r, lt);
        let ks = seq![m] + rest;
        assert forall|x: A| ks.to_set().contains(x) <==> d.contains(x) by {
            if d.contains(x) && x != m {
                assert(rest.to_set().contains(x));
                let i = rest.index_of(x);
                assert(ks[i + 1] == x);
            }
            if x == m {
                assert(ks[0] == m);
            }
            if ks.to_set().contains(x) {
                let i = ks.index_of(x);
                if i > 0 {
                    assert(rest[i - 1] == x);
                    assert(rest.to_set().contains(x));
                }
            }
        }
        assert(ks.to_set() =~= d);
        assert forall|i: int, j: int| 0 <= i < j < ks.len() implies lt(ks[i], ks[j]) by {
            if i == 0 {
                assert(rest.to_set().contains(rest[j - 1]));
                assert(ks[j] == rest[j - 1]);
            } else {
                assert(ks[i] == rest[i - 1] && ks[j] == rest[j - 1]);
            }
        }
        ks
    }
}

/// Sort distinct values into strictly increasing order under `lt`, a strict
/// total order on them that `less` computes.
pub(crate) fn sort_strict<T: Copy>(
    v: Vec<T>,
    Ghost(lt): Ghost<spec_fn(T, T) -> bool>,
    less: impl Fn(T, T) -> bool,
) -> (out: Vec<T>)
    requires
        v@.no_duplicates(),
        strict_total_on(lt, v@.to_set()),
        forall|a: T, b: T| call_requires(less, (a, b)),
        forall|a: T, b: T, r: bool| call_ensures(less, (a, b), r) ==> r == lt(a, b),
    ensures
        out@.to_set() == v@.to_set(),
        strictly_sorted(out@, lt),
{
    let ghost all = v@.to_set();
    let mut rest = v;
    let mut out: Vec<T> = Vec::new();
    while rest.len() > 0
        invariant
            rest@.no_duplicates(),
            strict_total_on(lt, all),
            forall|a: T, b: T| call_requires(less, (a, b)),
            forall|a: T, b: T, r: bool| call_ensures(less, (a, b), r) ==> r == lt(a, b),
            forall|x: T| all.contains(x) <==> (out@.contains(x) || rest@.contains(x)),
            forall|x: T| out@.contains(x) ==> !rest@.contains(x),
            strictly_sorted(out@, lt),
            forall|t: int, q: int| #![trigger out@[t], rest@[q]] 0 <= t < out@.len() && 0 <= q < rest@.len() ==>
                lt(out@[t], rest@[q]),
        decreases rest@.len(),
    {
        let mut best: usize = 0;
        let mut j: usize = 1;
        proof {
            assert(rest@.contains(rest@[0]));
        }
        while j < rest.len()
            invariant
                1 <= j <= rest@.len(),
                best < j,
                strict_total_on(lt, all),
                forall|x: T| rest@.contains(x) ==> all.contains(x),
                forall|a: T, b: T| call_requires(less, (a, b)),
                forall|a: T, b: T, r: bool| call_ensures(less, (a, b), r) ==> r == lt(a, b),
                forall|q: int| 0 <= q < j ==> !lt(#[trigger] rest@[q], rest@[best as int]),
            decreases rest@.len() - j,
        {
            proof {
                assert(rest@.contains(rest@[j as int]));
                assert(rest@.contains(rest@[best as int]));
            }
            if less(rest[j], rest[best]) {
                proof {
                    assert forall|q: int| 0 <= q < j + 1 implies !lt(#[trigger] rest@[q], rest@[j as int]) by {
                        assert(rest@.contains(rest@[q]));
                        if lt(rest@[q], rest@[j as int]) {
                            assert(lt(rest@[q], rest@[best as int]));
                        }
                    }
                }
                best = j;
            }
            j += 1;
        }
        let ghost old_rest = rest@;
        let ghost old_out = out@;
        proof {
            assert forall|q: int| 0 <= q < old_rest.len() && q != best implies
                lt(old_rest[best as int], #[trigger] old_rest[q]) by {
                assert(old_rest.contains(old_rest[q]));
                assert(old_rest.contains(old_rest[best as int]));
                assert(old_rest[q] != old_rest[best as int]);
                assert(!lt(old_rest[q], old_rest[best as int]));
            }
        }
        let item = rest.remove(best);
        out.push(item);
        proof {
            assert forall|q: int| 0 <= q < rest@.len() implies
                (#[trigger] rest@[q]) == old_rest[if q < best { q } else { q + 1 }] by {}
            assert forall|t: int, q: int| #![trigger out@[t], rest@[q]] 0 <= t < out@.len() && 0 <= q < rest@.len() implies
                lt(out@[t], rest@[q]) by {
                let oq = if q < best { q } else { q + 1 };
                if t < old_out.len() {
                    assert(out@[t] == old_out[t]);
                    assert(old_out[t] == old_out[t] && old_rest[oq] == old_rest[oq]);
                } else {
                    assert(out@[t] == item);
                }
            }
            assert forall|s: int, t: int| 0 <= s < t < out@.len() implies lt(out@[s], out@[t]) by {
                if t < old_out.len() {
                    assert(out@[s] == old_out[s] && out@[t] == old_out[t]);
                } else {
                    assert(out@[s] == old_out[s] && old_rest[best as int] == old_rest[best as int]);
                }
            }
            assert forall|x: T| all.contains(x) <==> (out@.contains(x) || rest@.contains(x)) by {
                if old_rest.contains(x) && x != item {
                    let q = old_rest.index_of(x);
                    let nq = if q < best { q } else { q - 1 };
                    assert(rest@[nq] == x);
                }
                if old_out.contains(x) {
                    let t = old_out.index_of(x);
                    assert(out@[t] == x);
                }
                if out@.contains(x) && x != item {
                    let t = out@.index_of(x);
                    assert(old_out[t] == x);
                }
                if rest@.contains(x) {
                    let q = rest@.index_of(x);
                    let oq = if q < best { q } else { q + 1 };
                    assert(old_rest[oq] == x);
                }
                assert(out@[out@.len() - 1] == item);
            }
            assert forall|x: T| out@.contains(x) implies !rest@.contains(x) by {
                if rest@.contains(x) {
                    let q = rest@.index_of(x);
                    let oq = if q < best { q } else { q + 1 };
                    assert(old_rest[oq] == x);
                    if x == item {
                        assert(old_rest[best as int] == x);
                    } else {
                        let t = out@.index_of(x);
                        assert(old_out[t] == x);
                        assert(old_out.contains(x));
                    }
                }
            }
        }
    }
    proof {
        assert(out@.to_set() =~= all);
    }
    out
}

/// Keeping only some elements of a strictly sorted sequence leaves it
/// strictly sorted.
pub proof fn lemma_filter_sorted<A>(s: Seq<A>, lt: spec_fn(A, A) -> bool, p: spec_fn(A) -> bool)
    requires
        strictly_sorted(s, lt),
    ensures
        strictly_sorted(s.filter(p), lt),
    decreases s.len(),
{
    reveal_with_fuel(Seq::<_>::filter, 1);
    if s.len() > 0 {
        let t = s.drop_last();
        assert(strictly_sorted(t, lt));
        lemma_filter_sorted(t, lt, p);
        let f = t.filter(p);
        if p(s.last()) {
            assert forall|i: int, j: int| 0 <= i < j < f.len() + 1 implies lt(#[trigger] f.push(s.last())[i], #[trigger] f.push(s.last())[j]) by {
                if j == f.len() {
                    assert(f.contains(f[i]));
                    t.lemma_filter_contains_rev(p, f[i]);
                    let k = t.index_of(f[i]);
                    assert(s[k] == f[i]);
                    assert(lt(s[k], s[s.len() - 1]));
                } else {
                    assert(lt(f[i], f[j]));
                }
            }
        }
    }
}

} // verus!
