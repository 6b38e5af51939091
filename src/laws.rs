//! Laws of the arena, stated over the contents that `Root::allocate`,
//! `Root::free` and `Root::get` are specified by.
use vstd::prelude::*;
use vstd::arithmetic::div_mod::lemma_fundamental_div_mod_converse;
use crate::page::{
    empty_slots, is_full, lemma_first_free, lemma_first_free_from, lemma_live_count_empty,
    lemma_live_count_remove, live_count,
};
use crate::root::{
    after_alloc, after_free, alloc_key, arena_live_count, first_open_page, grown, lemma_first_open_from,
    lemma_first_open_page, lookup, Slots,
};

verus! {

/// Every page of `v` has `cap` slots, and there is at least one slot per page.
pub open spec fn uniform<T>(v: Slots<T>, cap: nat) -> bool {
    &&& cap >= 1
    &&& forall|i: int| 0 <= i < v.len() ==> (#[trigger] v[i]).len() == cap
}

/// The key an allocation returns names an empty slot that exists once the arena
/// has grown, and the arena grows by one page exactly when every page is full.
pub proof fn lemma_alloc_key<T>(v: Slots<T>, cap: nat)
    requires
        uniform(v, cap),
    ensures
        0 <= alloc_key(v, cap).0 <= v.len(),
        0 <= alloc_key(v, cap).1 < cap,
        grown(v, cap).len() == if first_open_page(v) == v.len() {
            v.len() + 1
        } else {
            v.len()
        },
        uniform(grown(v, cap), cap),
        alloc_key(v, cap).0 < grown(v, cap).len(),
        grown(v, cap)[alloc_key(v, cap).0][alloc_key(v, cap).1] is None,
        lookup(v, alloc_key(v, cap).0, alloc_key(v, cap).1) is None,
        forall|i: int| 0 <= i < v.len() ==> #[trigger] grown(v, cap)[i] == v[i],
{
    lemma_first_open_from(v, 0);
    let p = first_open_page(v);
    let g = grown(v, cap);
    if p == v.len() {
        let e = empty_slots::<T>(cap);
        assert(e[0] is None);
        lemma_first_free(e, 0);
        assert(g[p] == e);
    } else {
        lemma_first_free_from(v[p], 0);
    }
}

/// Stable addressing: allocating or freeing one key leaves the element under
/// every other key where it was, and an allocation never lands on a live element.
pub proof fn lemma_stable_addressing<T>(v: Slots<T>, cap: nat, x: T, p: int, s: int, fp: int, fs: int)
    requires
        uniform(v, cap),
    ensures
        lookup(v, alloc_key(v, cap).0, alloc_key(v, cap).1) is None,
        (p, s) != alloc_key(v, cap) ==> lookup(after_alloc(v, cap, x), p, s) == lookup(v, p, s),
        (p, s) != (fp, fs) ==> lookup(after_free(v, fp, fs), p, s) == lookup(v, p, s),
{
    lemma_alloc_key(v, cap);
}

/// Round trip: what was allocated is found under its key; once freed it is
/// gone, and freeing it again finds nothing and changes nothing.
pub proof fn lemma_round_trip<T>(v: Slots<T>, cap: nat, x: T)
    requires
        uniform(v, cap),
    ensures
        ({
            let (p, s) = alloc_key(v, cap);
            let w = after_free(after_alloc(v, cap, x), p, s);
            &&& lookup(after_alloc(v, cap, x), p, s) == Some(x)
            &&& lookup(w, p, s) is None
            &&& after_free(w, p, s) == w
        }),
{
    lemma_alloc_key(v, cap);
}

/// Capacity growth: when every page is full an allocation adds a page at the
/// end and places the element there; otherwise no page is added.
pub proof fn lemma_capacity_growth<T>(v: Slots<T>, cap: nat, x: T)
    requires
        uniform(v, cap),
    ensures
        (forall|i: int| 0 <= i < v.len() ==> is_full(#[trigger] v[i])) ==> alloc_key(v, cap).0
            == v.len() && after_alloc(v, cap, x).len() == v.len() + 1,
        !(forall|i: int| 0 <= i < v.len() ==> is_full(#[trigger] v[i])) ==> alloc_key(v, cap).0
            < v.len() && after_alloc(v, cap, x).len() == v.len(),
        uniform(after_alloc(v, cap, x), cap),
{
    lemma_alloc_key(v, cap);
    lemma_first_open_from(v, 0);
    let (p, s) = alloc_key(v, cap);
    let g = grown(v, cap);
    let a = after_alloc(v, cap, x);
    assert forall|i: int| 0 <= i < a.len() implies (#[trigger] a[i]).len() == cap by {
        assert(g[i].len() == cap);
    }
}

/// Free-space reuse: after an element is freed, the next allocation goes to a
/// page no later than the freed one, before any new page is added.
pub proof fn lemma_free_space_reuse<T>(v: Slots<T>, cap: nat, p: int, s: int)
    requires
        uniform(v, cap),
        lookup(v, p, s) is Some,
    ensures
        alloc_key(after_free(v, p, s), cap).0 <= p,
        grown(after_free(v, p, s), cap) == after_free(v, p, s),
{
    let w = after_free(v, p, s);
    assert(w[p][s] is None);
    assert(!is_full(w[p]));
    lemma_first_open_from(w, 0);
    if first_open_page(w) > p {
        assert(is_full(w[p]));
    }
}

/// Replacing one page changes the arena's count by the change in that page's count.
proof fn lemma_arena_count_update<T>(v: Slots<T>, p: int, q: Seq<Option<T>>)
    requires
        0 <= p < v.len(),
    ensures
        arena_live_count(v.update(p, q)) + live_count(v[p]) == arena_live_count(v) + live_count(q),
    decreases v.len(),
{
    let u = v.update(p, q);
    if p == v.len() - 1 {
        assert(u.drop_last() =~= v.drop_last());
    } else {
        assert(u.drop_last() =~= v.drop_last().update(p, q));
        lemma_arena_count_update(v.drop_last(), p, q);
    }
}

/// Teardown counts: an allocation adds exactly one live element and a
/// successful free removes exactly one, so the elements an arena destroys on
/// teardown are those allocated and not yet freed.
pub proof fn lemma_live_count_changes<T>(v: Slots<T>, cap: nat, x: T, p: int, s: int)
    requires
        uniform(v, cap),
    ensures
        arena_live_count(after_alloc(v, cap, x)) == arena_live_count(v) + 1,
        lookup(v, p, s) is Some ==> arena_live_count(after_free(v, p, s)) + 1 == arena_live_count(v),
        lookup(v, p, s) is None ==> arena_live_count(after_free(v, p, s)) == arena_live_count(v),
{
    lemma_alloc_key(v, cap);
    let (kp, ks) = alloc_key(v, cap);
    let g = grown(v, cap);
    if first_open_page(v) == v.len() {
        assert(g.drop_last() =~= v);
        lemma_live_count_empty::<T>(cap);
    }
    let q = g[kp].update(ks, Some(x));
    assert(q.update(ks, None) =~= g[kp]);
    lemma_live_count_remove(q, ks);
    lemma_arena_count_update(g, kp, q);
    if lookup(v, p, s) is Some {
        lemma_live_count_remove(v[p], s);
        lemma_arena_count_update(v, p, v[p].update(s, None));
    }
}

/// The contents after the elements of `xs` are allocated in order into an empty arena.
pub open spec fn fill<T>(cap: nat, xs: Seq<T>) -> Slots<T>
    decreases xs.len(),
{
    if xs.len() == 0 {
        Seq::empty()
    } else {
        after_alloc(fill(cap, xs.drop_last()), cap, xs.last())
    }
}

/// The elements of `xs` lie in order, `cap` to a page, in just enough pages.
pub open spec fn packed<T>(v: Slots<T>, cap: nat, xs: Seq<T>) -> bool {
    &&& uniform(v, cap)
    &&& v.len() == (xs.len() + cap - 1) / (cap as int)
    &&& forall|p: int, s: int|
        0 <= p < v.len() && 0 <= s < cap ==> #[trigger] v[p][s] == if p * cap + s < xs.len() {
            Some(xs[p * cap + s])
        } else {
            None
        }
}

/// A slot on a page before page `q` comes before position `q * c + r`.
proof fn lemma_slot_before(p: int, s: int, c: int, q: int, r: int, n: int)
    requires
        0 <= p < q,
        0 <= s < c,
        n == q * c + r,
        r >= 0,
    ensures
        p * c + s < n,
{
    assert(p * c + s < n) by (nonlinear_arith)
        requires
            0 <= p < q,
            0 <= s < c,
            n == q * c + r,
            r >= 0,
    ;
}

/// One more allocation into a packed arena goes to slot `n % cap` of page
/// `n / cap` and leaves it packed.
proof fn lemma_packed_step<T>(v: Slots<T>, cap: nat, xs: Seq<T>, x: T)
    requires
        packed(v, cap, xs),
    ensures
        alloc_key(v, cap) == (xs.len() as int / (cap as int), xs.len() as int % (cap as int)),
        packed(after_alloc(v, cap, x), cap, xs.push(x)),
{
    let c = cap as int;
    let n = xs.len() as int;
    let q = n / c;
    let r = n % c;
    assert(n == q * c + r && 0 <= r < c && q >= 0) by (nonlinear_arith)
        requires
            c >= 1,
            n >= 0,
            q == n / c,
            r == n % c,
    ;
    if r == 0 {
        lemma_fundamental_div_mod_converse(n + c - 1, c, q, c - 1);
    } else {
        assert(n + c - 1 == (q + 1) * c + (r - 1)) by (nonlinear_arith)
            requires
                n == q * c + r,
        ;
        lemma_fundamental_div_mod_converse(n + c - 1, c, q + 1, r - 1);
    }
    assert(v.len() == if r == 0 {
        q
    } else {
        q + 1
    });
    assert forall|k: int| 0 <= k < q implies is_full(#[trigger] v[k]) by {
        assert forall|s: int| 0 <= s < v[k].len() implies (#[trigger] v[k][s]) is Some by {
            lemma_slot_before(k, s, c, q, r, n);
        }
    }
    lemma_alloc_key(v, cap);
    if r == 0 {
        lemma_first_open_page(v, q);
    } else {
        assert(v[q][r] is None) by {
            assert(q * c + r == n);
        }
        lemma_first_open_page(v, q);
        assert forall|s: int| 0 <= s < r implies (#[trigger] v[q][s]) is Some by {
            assert(q * c + s < n) by (nonlinear_arith)
                requires
                    0 <= s < r,
                    n == q * c + r,
            ;
        }
        lemma_first_free(v[q], r);
    }
    let g = grown(v, cap);
    if r == 0 {
        let e = empty_slots::<T>(cap);
        assert(e[0] is None);
        lemma_first_free(e, 0);
    }
    assert(alloc_key(v, cap) == (q, r));
    let a = after_alloc(v, cap, x);
    let ys = xs.push(x);
    lemma_capacity_growth(v, cap, x);
    if r == 0 {
        assert(forall|i: int| 0 <= i < v.len() ==> is_full(#[trigger] v[i]));
    } else {
        assert(!is_full(v[q]));
    }
    assert(a.len() == q + 1);
    assert(ys.len() + c - 1 == (q + 1) * c + r) by (nonlinear_arith)
        requires
            n == q * c + r,
            ys.len() == n + 1,
    ;
    lemma_fundamental_div_mod_converse(ys.len() + c - 1, c, q + 1, r);
    assert forall|p: int, s: int| 0 <= p < a.len() && 0 <= s < cap implies #[trigger] a[p][s] == if p
        * cap + s < ys.len() {
        Some(ys[p * cap + s])
    } else {
        None
    } by {
        if p == q && s == r {
            assert(p * c + s == n);
        } else if p < v.len() {
            assert(a[p][s] == v[p][s]);
            assert(p * c + s != n) by (nonlinear_arith)
                requires
                    !(p == q && s == r),
                    0 <= s < c,
                    0 <= r < c,
                    n == q * c + r,
                    p >= 0,
            ;
        } else {
            assert(p == q && r == 0);
            assert(a[p][s] is None);
            assert(p * c + s > n) by (nonlinear_arith)
                requires
                    p == q,
                    r == 0,
                    n == q * c + r,
                    s > 0,
            ;
        }
    }
}

/// Capacity growth over many calls: allocating `n` elements in order into an
/// empty arena packs them `cap` to a page, and the next allocation goes to slot
/// `n % cap` of page `n / cap`, adding that page when it is new.
pub proof fn lemma_sequential_fill<T>(cap: nat, xs: Seq<T>)
    requires
        cap >= 1,
    ensures
        packed(fill(cap, xs), cap, xs),
        alloc_key(fill(cap, xs), cap) == (xs.len() as int / (cap as int), xs.len() as int % (cap as int)),
    decreases xs.len(),
{
    if xs.len() == 0 {
        lemma_fundamental_div_mod_converse(cap - 1, cap as int, 0, cap - 1);
        lemma_packed_step(fill(cap, xs), cap, xs, arbitrary());
    } else {
        let init = xs.drop_last();
        lemma_sequential_fill(cap, init);
        lemma_packed_step(fill(cap, init), cap, init, xs.last());
        assert(init.push(xs.last()) =~= xs);
        lemma_packed_step(fill(cap, xs), cap, xs, arbitrary());
    }
}

} // verus!
