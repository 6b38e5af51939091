//! How the count of outstanding handles moves when a handle is cloned or dropped.
use vstd::prelude::*;

verus! {

/// The count after one handle is cloned.
pub open spec fn count_after_clone(c: nat) -> nat {
    c + 1
}

/// The count after one handle is dropped.
pub open spec fn count_after_drop(c: nat) -> nat {
    (c - 1) as nat
}

/// Dropping a handle at count `c` releases what it points to.
pub open spec fn drop_releases(c: nat) -> bool {
    c == 1
}

/// The count after `n` clones.
pub open spec fn after_clones(c: nat, n: nat) -> nat
    decreases n,
{
    if n == 0 {
        c
    } else {
        count_after_clone(after_clones(c, (n - 1) as nat))
    }
}

/// The count after `n` drops.
pub open spec fn after_drops(c: nat, n: nat) -> nat
    decreases n,
{
    if n == 0 {
        c
    } else {
        count_after_drop(after_drops(c, (n - 1) as nat))
    }
}

proof fn lemma_after_clones(c: nat, n: nat)
    ensures
        after_clones(c, n) == c + n,
    decreases n,
{
    if n > 0 {
        lemma_after_clones(c, (n - 1) as nat);
    }
}

proof fn lemma_after_drops(c: nat, n: nat)
    requires
        n <= c,
    ensures
        after_drops(c, n) == c - n,
    decreases n,
{
    if n > 0 {
        lemma_after_drops(c, (n - 1) as nat);
    }
}

/// Cloning a live handle `n` times and then dropping `n` times brings the count
/// back to where it was, and none of those drops releases the pointee.
pub proof fn lemma_clone_drop_balance(c: nat, n: nat)
    requires
        c >= 1,
    ensures
        after_drops(after_clones(c, n), n) == c,
        forall|k: nat| k < n ==> !drop_releases(#[trigger] after_drops(after_clones(c, n), k)),
{
    lemma_after_clones(c, n);
    lemma_after_drops(c + n, n);
    assert forall|k: nat| k < n implies !drop_releases(#[trigger] after_drops(after_clones(c, n), k)) by {
        lemma_after_drops(c + n, k);
    }
}

/// Dropping every one of `c` handles releases the pointee exactly once: at the last drop.
pub proof fn lemma_last_drop_releases(c: nat)
    requires
        c >= 1,
    ensures
        drop_releases(after_drops(c, (c - 1) as nat)),
        forall|k: nat| k < c - 1 ==> !drop_releases(#[trigger] after_drops(c, k)),
        after_drops(c, c) == 0,
{
    lemma_after_drops(c, (c - 1) as nat);
    lemma_after_drops(c, c);
    assert forall|k: nat| k < c - 1 implies !drop_releases(#[trigger] after_drops(c, k)) by {
        lemma_after_drops(c, k);
    }
}

} // verus!
