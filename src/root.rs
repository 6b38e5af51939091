//! The arena: a growing list of pages, the set of pages with a free slot, and
//! a count of outstanding handles.
use vstd::prelude::*;
use uniset::BitSet;
use crate::bitset::{bits_of, clear_bit, new_bits, reserve_bits, set_bit, test_bit};
use crate::handle::{count_after_clone, count_after_drop, drop_releases};
use crate::layout::MAX_SLOTS;
use crate::page::{
    element_fits, empty_slots, lemma_page_slots, first_free, is_full, lemma_live_count_bound, live_count, page_slots,
    Page,
};

verus! {

/// Most pages an arena holds, so that every slot of it has its own `usize` ordinal.
pub const MAX_PAGES: usize = usize::MAX / 64;

/// The contents of an arena: for each page, its slots.
pub type Slots<T> = Seq<Seq<Option<T>>>;

/// The lowest page at or after `i` with an empty slot, or the page count when there is none.
pub open spec fn first_open_from<T>(v: Slots<T>, i: int) -> int
    decreases v.len() - i,
{
    if i < 0 || i >= v.len() {
        v.len() as int
    } else if !is_full(v[i]) {
        i
    } else {
        first_open_from(v, i + 1)
    }
}

/// The page that the next allocation goes to: the lowest page with an empty
/// slot, or the page count when every page is full (a new page is added).
pub open spec fn first_open_page<T>(v: Slots<T>) -> int {
    first_open_from(v, 0)
}

/// The pages, with a new empty page of `cap` slots when every page is full.
pub open spec fn grown<T>(v: Slots<T>, cap: nat) -> Slots<T> {
    if first_open_page(v) == v.len() {
        v.push(empty_slots::<T>(cap))
    } else {
        v
    }
}

/// The key that the next allocation returns: page, then slot.
pub open spec fn alloc_key<T>(v: Slots<T>, cap: nat) -> (int, int) {
    let p = first_open_page(v);
    (p, first_free(grown(v, cap)[p]))
}

/// The contents after `x` is allocated.
pub open spec fn after_alloc<T>(v: Slots<T>, cap: nat, x: T) -> Slots<T> {
    let (p, s) = alloc_key(v, cap);
    let g = grown(v, cap);
    g.update(p, g[p].update(s, Some(x)))
}

/// The element under key `(p, s)`, if there is one.
pub open spec fn lookup<T>(v: Slots<T>, p: int, s: int) -> Option<T> {
    if 0 <= p < v.len() && 0 <= s < v[p].len() {
        v[p][s]
    } else {
        None
    }
}

/// The contents after the key `(p, s)` is freed.
pub open spec fn after_free<T>(v: Slots<T>, p: int, s: int) -> Slots<T> {
    if lookup(v, p, s) is Some {
        v.update(p, v[p].update(s, None))
    } else {
        v
    }
}

/// Number of elements in all pages.
pub open spec fn arena_live_count<T>(v: Slots<T>) -> nat
    decreases v.len(),
{
    if v.len() == 0 {
        0
    } else {
        arena_live_count(v.drop_last()) + live_count(v.last())
    }
}

/// What `first_open_from` picks: a page with an empty slot, every page before it full.
pub proof fn lemma_first_open_from<T>(v: Slots<T>, i: int)
    requires
        0 <= i <= v.len(),
    ensures
        i <= first_open_from(v, i) <= v.len(),
        first_open_from(v, i) < v.len() ==> !is_full(v[first_open_from(v, i)]),
        forall|k: int| i <= k < first_open_from(v, i) ==> is_full(#[trigger] v[k]),
    decreases v.len() - i,
{
    if i < v.len() && is_full(v[i]) {
        lemma_first_open_from(v, i + 1);
    }
}

/// The page the next allocation goes to is the one open page with every page before it full.
pub proof fn lemma_first_open_page<T>(v: Slots<T>, t: int)
    requires
        0 <= t <= v.len(),
        t < v.len() ==> !is_full(v[t]),
        forall|k: int| 0 <= k < t ==> is_full(#[trigger] v[k]),
    ensures
        first_open_page(v) == t,
{
    lemma_first_open_from(v, 0);
    let r = first_open_page(v);
    if r < t {
        assert(is_full(v[r]));
    }
    if t < r {
        assert(is_full(v[t]));
    }
}

/// An arena holding elements of type `T`.
pub struct Root<T> {
    refcount: usize,
    shared_ready: BitSet,
    has_free: BitSet,
    pages: Vec<Page<T>>,
}

impl<T> View for Root<T> {
    type V = Slots<T>;

    closed spec fn view(&self) -> Slots<T> {
        self.pages@.map_values(|p: Page<T>| p@)
    }
}

impl<T> Root<T> {
    /// The pages agree with the free-page set, and every page has one back-handle counted.
    pub closed spec fn wf(&self) -> bool {
        &&& element_fits::<T>()
        &&& self.pages@.len() <= MAX_PAGES
        &&& self.refcount > self.pages@.len()
        &&& forall|i: int|
            0 <= i < self.pages@.len() ==> (#[trigger] self.pages@[i]).wf() && self.pages@[i]@.len()
                == page_slots::<T>()
        &&& bits_of(self.has_free) == Set::new(
            |i: nat| i < self.pages@.len() && !is_full(self.pages@[i as int]@),
        )
    }

    /// Positions set in the readiness set. The scheduler owns these bits: the
    /// arena only makes room for each new page and never sets or clears one.
    pub closed spec fn ready_bits(&self) -> Set<nat> {
        bits_of(self.shared_ready)
    }

    /// Outstanding handles held by callers, not counting those the pages hold.
    pub closed spec fn handles(&self) -> nat {
        (self.refcount - self.pages@.len()) as nat
    }

    /// All outstanding handles: those of callers and one per page.
    pub closed spec fn refcount(&self) -> nat {
        self.refcount as nat
    }

    /// An allocation needs no new page, or there is room for one.
    pub open spec fn can_allocate(&self) -> bool {
        first_open_page(self@) < self@.len() || (self@.len() < MAX_PAGES && self.refcount()
            < usize::MAX)
    }

    /// A well-formed arena has a count of each page's back-handle and one more.
    pub proof fn lemma_wf(&self)
        requires
            self.wf(),
        ensures
            self.refcount() == self.handles() + self@.len(),
            self.handles() >= 1,
            self@.len() <= MAX_PAGES,
            forall|i: int| 0 <= i < self@.len() ==> (#[trigger] self@[i]).len() == page_slots::<T>(),
            1 <= page_slots::<T>() <= MAX_SLOTS,
            crate::laws::uniform(self@, page_slots::<T>()),
    {
        lemma_page_slots::<T>();
    }

    /// An empty arena with one handle.
    pub fn new() -> (r: Root<T>)
        requires
            element_fits::<T>(),
        ensures
            r.wf(),
            r@ == Seq::<Seq<Option<T>>>::empty(),
            r.handles() == 1,
            r.ready_bits() == Set::<nat>::empty(),
    {
        let r = Root { refcount: 1, shared_ready: new_bits(), has_free: new_bits(), pages: Vec::new() };
        proof {
            assert(r@ =~= Seq::<Seq<Option<T>>>::empty());
            assert(bits_of(r.has_free) =~= Set::new(
                |i: nat| i < r.pages@.len() && !is_full(r.pages@[i as int]@),
            ));
        }
        r
    }

    /// Number of slots in each page of this arena.
    pub fn page_capacity(&self) -> (r: usize)
        requires
            self.wf(),
        ensures
            r == page_slots::<T>(),
    {
        proof {
            lemma_page_slots::<T>();
        }
        Page::<T>::layout().slots()
    }

    /// Number of pages.
    pub fn num_pages(&self) -> (r: usize)
        requires
            self.wf(),
        ensures
            r == self@.len(),
    {
        self.pages.len()
    }

    /// The free-page set stays exact when only page `p` changed and its membership was updated.
    proof fn lemma_free_set_update(&self, old_root: Root<T>, p: int)
        requires
            old_root.wf(),
            0 <= p < old_root.pages@.len(),
            self.pages@.len() == old_root.pages@.len(),
            forall|i: int| 0 <= i < self.pages@.len() && i != p ==> self.pages@[i] == old_root.pages@[i],
            forall|i: nat|
                i != p ==> bits_of(self.has_free).contains(i) == bits_of(old_root.has_free).contains(i),
            bits_of(self.has_free).contains(p as nat) == !is_full(self.pages@[p]@),
        ensures
            bits_of(self.has_free) == Set::new(
                |i: nat| i < self.pages@.len() && !is_full(self.pages@[i as int]@),
            ),
    {
        assert(bits_of(self.has_free) =~= Set::new(
            |i: nat| i < self.pages@.len() && !is_full(self.pages@[i as int]@),
        ));
    }

    /// Appends an empty page, which holds a handle back to the arena, and returns its index.
    pub fn add_page(&mut self) -> (r: usize)
        requires
            old(self).wf(),
            old(self)@.len() < MAX_PAGES,
            old(self).refcount() < usize::MAX,
        ensures
            final(self).wf(),
            r == old(self)@.len(),
            final(self)@ == old(self)@.push(empty_slots::<T>(page_slots::<T>())),
            final(self).handles() == old(self).handles(),
            final(self).ready_bits() == old(self).ready_bits(),
    {
        let page = Page::new();
        let page_ix = self.pages.len();
        self.refcount = self.refcount + 1;
        self.pages.push(page);
        set_bit(&mut self.has_free, page_ix);
        reserve_bits(&mut self.shared_ready, page_ix + 1);
        proof {
            lemma_page_slots::<T>();
            assert(self@ =~= old(self)@.push(empty_slots::<T>(page_slots::<T>())));
            assert(!is_full(self.pages@[page_ix as int]@)) by {
                assert(self.pages@[page_ix as int]@[0] is None);
            }
            assert(bits_of(self.has_free) =~= Set::new(
                |i: nat| i < self.pages@.len() && !is_full(self.pages@[i as int]@),
            )) by {
                assert forall|i: nat| i < old(self).pages@.len() implies self.pages@[i as int]
                    == old(self).pages@[i as int] by {}
            }
        }
        page_ix
    }

    /// Stores `value` in the lowest empty slot of the lowest page that has one,
    /// adding a page when every page is full, and returns its key: page, then slot.
    pub fn allocate(&mut self, value: T) -> (r: (usize, usize))
        requires
            old(self).wf(),
            old(self).can_allocate(),
        ensures
            final(self).wf(),
            (r.0 as int, r.1 as int) == alloc_key(old(self)@, page_slots::<T>()),
            final(self)@ == after_alloc(old(self)@, page_slots::<T>(), value),
            final(self).handles() == old(self).handles(),
            final(self).ready_bits() == old(self).ready_bits(),
    {
        let ghost cap = page_slots::<T>();
        let ghost v0 = self@;
        let n = self.pages.len();
        let mut i: usize = 0;
        let mut found = false;
        while i < n && !found
            invariant
                self.wf(),
                self@ == v0,
                n == v0.len(),
                i <= n,
                forall|k: int| 0 <= k < i ==> is_full(#[trigger] v0[k]),
                found ==> i < n && !is_full(v0[i as int]),
            decreases n - i + if found {
                0int
            } else {
                1int
            },
        {
            if test_bit(&self.has_free, i) {
                found = true;
            } else {
                i = i + 1;
            }
        }
        let page_ix = if found {
            proof {
                lemma_first_open_page(v0, i as int);
            }
            i
        } else {
            proof {
                lemma_first_open_page(v0, v0.len() as int);
            }
            let page_ix = self.add_page();
            proof {
                lemma_page_slots::<T>();
                assert(self@[page_ix as int][0] is None);
            }
            page_ix
        };
        let ghost before = *self;
        proof {
            assert(self@ == grown(v0, cap));
            assert(!is_full(self@[page_ix as int]));
        }
        let (slot_ix, newly_full) = self.pages[page_ix].allocate(value);
        if newly_full {
            clear_bit(&mut self.has_free, page_ix);
        }
        proof {
            if !newly_full {
                assert(bits_of(before.has_free).contains(page_ix as nat));
            }
            self.lemma_free_set_update(before, page_ix as int);
            assert(self@ =~= before@.update(page_ix as int, before@[page_ix as int].update(slot_ix as int, Some(value))));
        }
        (page_ix, slot_ix)
    }

    /// Destroys the element under key `(page_ix, slot_ix)` and marks its page as
    /// having room. Says whether there was one: a stale or out-of-range key
    /// changes nothing.
    pub fn free(&mut self, page_ix: usize, slot_ix: usize) -> (r: bool)
        requires
            old(self).wf(),
        ensures
            final(self).wf(),
            r == lookup(old(self)@, page_ix as int, slot_ix as int) is Some,
            final(self)@ == after_free(old(self)@, page_ix as int, slot_ix as int),
            final(self).handles() == old(self).handles(),
            final(self).ready_bits() == old(self).ready_bits(),
    {
        if page_ix >= self.pages.len() {
            return false;
        }
        let ghost before = *self;
        if !self.pages[page_ix].free(slot_ix) {
            proof {
                assert forall|i: int| 0 <= i < self.pages@.len() implies self.pages@[i]@
                    == before.pages@[i]@ by {}
                assert(self@ =~= before@);
                assert(bits_of(self.has_free) =~= Set::new(
                    |i: nat| i < self.pages@.len() && !is_full(self.pages@[i as int]@),
                ));
            }
            return false;
        }
        if !test_bit(&self.has_free, page_ix) {
            set_bit(&mut self.has_free, page_ix);
        }
        proof {
            assert(!is_full(self.pages@[page_ix as int]@)) by {
                assert(self.pages@[page_ix as int]@[slot_ix as int] is None);
            }
            self.lemma_free_set_update(before, page_ix as int);
            assert(self@ =~= before@.update(
                page_ix as int,
                before@[page_ix as int].update(slot_ix as int, None),
            ));
        }
        true
    }

    /// The element under key `(page_ix, slot_ix)`, if there is one.
    pub fn get(&self, page_ix: usize, slot_ix: usize) -> (r: Option<&T>)
        requires
            self.wf(),
        ensures
            lookup(self@, page_ix as int, slot_ix as int) matches Some(x) ==> (r matches Some(v)
                && *v == x),
            lookup(self@, page_ix as int, slot_ix as int) is None ==> r is None,
    {
        if page_ix >= self.pages.len() {
            return None;
        }
        self.pages[page_ix].get(slot_ix)
    }

    /// Takes one more handle to the arena.
    pub fn clone_handle(&mut self)
        requires
            old(self).wf(),
            old(self).refcount() < usize::MAX,
        ensures
            final(self).wf(),
            final(self)@ == old(self)@,
            final(self).handles() == count_after_clone(old(self).handles()),
            final(self).ready_bits() == old(self).ready_bits(),
    {
        self.refcount = self.refcount + 1;
    }

    /// Gives up one handle. The last caller handle tears the arena down: every
    /// page is destroyed with the elements still in it, each page's handle back
    /// to the arena goes with it, and the number of elements destroyed is
    /// returned. Any other handle leaves the contents as they are.
    pub fn drop_handle(&mut self) -> (r: Option<usize>)
        requires
            old(self).wf(),
        ensures
            r is Some == drop_releases(old(self).handles()),
            r is None ==> final(self).wf() && final(self)@ == old(self)@ && final(self).handles()
                == count_after_drop(old(self).handles()) && final(self).ready_bits() == old(
                self,
            ).ready_bits(),
            r matches Some(n) ==> n == arena_live_count(old(self)@) && final(self)@.len() == 0
                && final(self).refcount() == 0,
    {
        if self.refcount - self.pages.len() > 1 {
            self.refcount = self.refcount - 1;
            return None;
        }
        let destroyed = self.destroy_pages();
        self.pages = Vec::new();
        self.has_free = new_bits();
        self.shared_ready = new_bits();
        self.refcount = 0;
        proof {
            assert(self@ =~= Seq::<Seq<Option<T>>>::empty());
        }
        Some(destroyed)
    }

    /// Destroys the elements of every page, lowest page first, and says how many.
    fn destroy_pages(&mut self) -> (r: usize)
        requires
            old(self).wf(),
        ensures
            r == arena_live_count(old(self)@),
            final(self).pages@.len() == old(self).pages@.len(),
    {
        let ghost start = self@;
        let mut destroyed: usize = 0;
        let mut i: usize = 0;
        let n = self.pages.len();
        proof {
            self.lemma_wf();
        }
        while i < n
            invariant
                n == self.pages@.len() == start.len(),
                n <= MAX_PAGES,
                i <= n,
                destroyed == arena_live_count(start.take(i as int)),
                destroyed <= 64 * i,
                forall|j: int| i <= j < n ==> (#[trigger] self.pages@[j]).wf() && self.pages@[j]@ == start[j],
            decreases n - i,
        {
            proof {
                assert(start.take(i + 1).drop_last() =~= start.take(i as int));
                lemma_live_count_bound(start[i as int]);
                self.pages@[i as int].lemma_wf_len();
            }
            let d = self.pages[i].destroy_all();
            proof {
                assert forall|j: int| i < j < n implies (#[trigger] self.pages@[j]).wf() && self.pages@[j]@ == start[j] by {}
            }
            destroyed = destroyed + d;
            i = i + 1;
        }
        proof {
            assert(start.take(n as int) =~= start);
        }
        destroyed
    }
}

} // verus!
