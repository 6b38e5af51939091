//! One page of the arena: a header with an occupancy bitmap, and a fixed
//! number of element slots that never move.
use vstd::prelude::*;
use crate::bits::{bit, lemma_clear_bit, lemma_clear_lowest, lemma_mask_test, lemma_set_bit, lemma_trailing_ones, lemma_zero_bits};
use crate::handle::{count_after_clone, count_after_drop, drop_releases};
use crate::layout::{layout_fits, page_layout, slots_for, values_per_page, MAX_SLOTS, PAGE_SIZE};

verus! {

/// Every slot holds an element.
pub open spec fn is_full<T>(s: Seq<Option<T>>) -> bool {
    forall|i: int| 0 <= i < s.len() ==> (#[trigger] s[i]) is Some
}

/// The lowest empty slot at or after `i`, or the length when there is none.
pub open spec fn first_free_from<T>(s: Seq<Option<T>>, i: int) -> int
    decreases s.len() - i,
{
    if i < 0 || i >= s.len() {
        s.len() as int
    } else if s[i] is None {
        i
    } else {
        first_free_from(s, i + 1)
    }
}

/// The lowest empty slot, or the length when every slot is taken.
pub open spec fn first_free<T>(s: Seq<Option<T>>) -> int {
    first_free_from(s, 0)
}

/// Number of slots that hold an element.
pub open spec fn live_count<T>(s: Seq<Option<T>>) -> nat
    decreases s.len(),
{
    if s.len() == 0 {
        0
    } else {
        live_count(s.drop_last()) + if s.last() is Some {
            1nat
        } else {
            0nat
        }
    }
}

/// `n` empty slots.
pub open spec fn empty_slots<T>(n: nat) -> Seq<Option<T>> {
    Seq::new(n, |i: int| None)
}

/// Number of slots in a page for elements of type `T`.
pub open spec fn page_slots<T>() -> nat {
    slots_for(
        values_per_page(
            vstd::layout::size_of::<PageHeader>(),
            vstd::layout::size_of::<T>(),
            vstd::layout::align_of::<T>(),
        ),
    )
}

/// A page header and at least one element of type `T` fit in a page.
pub open spec fn element_fits<T>() -> bool {
    layout_fits(
        vstd::layout::size_of::<PageHeader>(),
        vstd::layout::align_of::<PageHeader>(),
        vstd::layout::size_of::<T>(),
        vstd::layout::align_of::<T>(),
    )
}

/// Whether a page header and at least one element of type `T` fit in a page.
pub fn element_fits_for<T>() -> (r: bool)
    ensures
        r == element_fits::<T>(),
{
    let header_size = core::mem::size_of::<PageHeader>();
    let header_align = core::mem::align_of::<PageHeader>();
    let value_size = core::mem::size_of::<T>();
    let value_align = core::mem::align_of::<T>();
    if header_align > PAGE_SIZE || value_size == 0 || value_align == 0 {
        return false;
    }
    let padding = (value_align - header_size % value_align) % value_align;
    if header_size > PAGE_SIZE || padding > PAGE_SIZE - header_size {
        return false;
    }
    value_size <= PAGE_SIZE - (header_size + padding)
}

/// A page for elements of type `T` has between one and the bitmap width of slots.
pub proof fn lemma_page_slots<T>()
    requires
        element_fits::<T>(),
    ensures
        1 <= page_slots::<T>() <= MAX_SLOTS,
{
    let hs = vstd::layout::size_of::<PageHeader>();
    let vs = vstd::layout::size_of::<T>();
    let room = crate::layout::PAGE_SIZE - (hs + crate::layout::padding_for(hs, vstd::layout::align_of::<T>()));
    assert(room / (vs as int) >= 1) by (nonlinear_arith)
        requires
            room >= vs,
            vs > 0,
    ;
}

/// What `first_free_from` picks: an empty slot with every slot before it taken.
pub proof fn lemma_first_free_from<T>(s: Seq<Option<T>>, i: int)
    requires
        0 <= i <= s.len(),
    ensures
        i <= first_free_from(s, i) <= s.len(),
        first_free_from(s, i) < s.len() ==> s[first_free_from(s, i)] is None,
        forall|k: int| i <= k < first_free_from(s, i) ==> (#[trigger] s[k]) is Some,
    decreases s.len() - i,
{
    if i < s.len() && s[i] is Some {
        lemma_first_free_from(s, i + 1);
    }
}

/// The lowest empty slot is the one empty slot with every slot before it taken.
pub proof fn lemma_first_free<T>(s: Seq<Option<T>>, t: int)
    requires
        0 <= t <= s.len(),
        t < s.len() ==> s[t] is None,
        forall|k: int| 0 <= k < t ==> (#[trigger] s[k]) is Some,
    ensures
        first_free(s) == t,
        (t == s.len()) == is_full(s),
{
    lemma_first_free_from(s, 0);
    let r = first_free(s);
    if r < t {
        assert(s[r] is Some);
    }
    if t < r {
        assert(s[t] is Some);
    }
}

/// Emptying a taken slot lowers the count by one; a taken slot makes the count positive.
pub proof fn lemma_live_count_remove<T>(s: Seq<Option<T>>, i: int)
    requires
        0 <= i < s.len(),
        s[i] is Some,
    ensures
        live_count(s.update(i, None)) + 1 == live_count(s),
    decreases s.len(),
{
    let u = s.update(i, None);
    if i == s.len() - 1 {
        assert(u.drop_last() =~= s.drop_last());
    } else {
        assert(u.drop_last() =~= s.drop_last().update(i, None));
        lemma_live_count_remove(s.drop_last(), i);
    }
}

/// No more elements than slots.
pub proof fn lemma_live_count_bound<T>(s: Seq<Option<T>>)
    ensures
        live_count(s) <= s.len(),
    decreases s.len(),
{
    if s.len() > 0 {
        lemma_live_count_bound(s.drop_last());
    }
}

/// Empty slots hold no element.
pub proof fn lemma_live_count_empty<T>(n: nat)
    ensures
        live_count(empty_slots::<T>(n)) == 0,
    decreases n,
{
    if n > 0 {
        assert(empty_slots::<T>(n).drop_last() =~= empty_slots::<T>((n - 1) as nat));
        lemma_live_count_empty::<T>((n - 1) as nat);
    }
}

/// The bookkeeping at the front of a page.
pub struct PageHeader {
    /// Outstanding handles to the page.
    pub refcount: usize,
    /// Bit `i` is set exactly when slot `i` holds an element.
    pub allocated: u64,
    /// Per-slot readiness bits, kept for the scheduler; this page never changes them.
    pub ready: u64,
}

/// A page of element slots.
pub struct Page<T> {
    header: PageHeader,
    values: Vec<Option<T>>,
}

impl<T> View for Page<T> {
    type V = Seq<Option<T>>;

    closed spec fn view(&self) -> Seq<Option<T>> {
        self.values@
    }
}

impl<T> Page<T> {
    /// The header's counts agree with the slots.
    pub closed spec fn wf(&self) -> bool {
        &&& 1 <= self.values@.len() <= MAX_SLOTS
        &&& forall|i: u64|
            i < 64 ==> (#[trigger] bit(self.header.allocated, i) <==> (i < self.values@.len()
                && self.values@[i as int] is Some))
    }

    /// Outstanding handles to this page.
    pub closed spec fn refcount(&self) -> nat {
        self.header.refcount as nat
    }

    /// Reserved readiness bits.
    pub closed spec fn ready(&self) -> u64 {
        self.header.ready
    }

    /// A page's well-formedness bounds its slot count.
    pub proof fn lemma_wf_len(&self)
        requires
            self.wf(),
        ensures
            1 <= self@.len() <= MAX_SLOTS,
    {
    }

    /// The layout of a page holding elements of type `T`.
    pub fn layout() -> (r: crate::layout::PageLayout)
        requires
            element_fits::<T>(),
        ensures
            r.size == crate::layout::PAGE_SIZE,
            r.align == crate::layout::PAGE_SIZE,
            r.num_values >= 1,
            r.num_values == values_per_page(
                vstd::layout::size_of::<PageHeader>(),
                vstd::layout::size_of::<T>(),
                vstd::layout::align_of::<T>(),
            ),
            slots_for(r.num_values as nat) == page_slots::<T>(),
    {
        page_layout(
            core::mem::size_of::<PageHeader>(),
            core::mem::align_of::<PageHeader>(),
            core::mem::size_of::<T>(),
            core::mem::align_of::<T>(),
        )
    }

    /// A page with every slot empty and one handle.
    pub fn new() -> (r: Page<T>)
        requires
            element_fits::<T>(),
        ensures
            r.wf(),
            r@ == empty_slots::<T>(page_slots::<T>()),
            r.refcount() == 1,
            r.ready() == 0,
    {
        let n = Self::layout().slots();
        let mut values: Vec<Option<T>> = Vec::new();
        let mut i: usize = 0;
        while i < n
            invariant
                i <= n,
                values@ =~= empty_slots::<T>(i as nat),
            decreases n - i,
        {
            values.push(None);
            i = i + 1;
        }
        let header = PageHeader { refcount: 1, allocated: 0, ready: 0 };
        proof {
            lemma_zero_bits(0u64);
            assert(values@ =~= empty_slots::<T>(page_slots::<T>()));
        }
        Page { header, values }
    }

    /// Number of slots in this page.
    pub fn capacity(&self) -> (r: usize)
        requires
            self.wf(),
        ensures
            r == self@.len(),
    {
        self.values.len()
    }

    /// Every slot holds an element.
    pub fn is_full(&self) -> (r: bool)
        requires
            self.wf(),
        ensures
            r == is_full(self@),
    {
        let t = self.header.allocated.trailing_ones();
        proof {
            self.lemma_first_free_is_trailing_ones();
        }
        t as usize >= self.values.len()
    }

    /// The first zero bit of the bitmap, capped at the slot count, is the lowest empty slot.
    proof fn lemma_first_free_is_trailing_ones(&self)
        requires
            self.wf(),
        ensures
            self.header.allocated.trailing_ones() < self@.len() ==> first_free(self@)
                == self.header.allocated.trailing_ones(),
            is_full(self@) == (self.header.allocated.trailing_ones() >= self@.len()),
    {
        let a = self.header.allocated;
        let s = self@;
        lemma_trailing_ones(a);
        let t = a.trailing_ones() as u64;
        if t < s.len() {
            assert(!bit(a, t));
            assert forall|k: int| 0 <= k < t implies (#[trigger] s[k]) is Some by {
                assert(bit(a, k as u64));
            }
            lemma_first_free(s, t as int);
        } else {
            assert forall|k: int| 0 <= k < s.len() implies (#[trigger] s[k]) is Some by {
                assert(bit(a, k as u64));
            }
        }
    }

    /// Stores `value` in the lowest empty slot, and says which slot and whether
    /// the page is now full.
    pub fn allocate(&mut self, value: T) -> (r: (usize, bool))
        requires
            old(self).wf(),
            !is_full(old(self)@),
        ensures
            final(self).wf(),
            r.0 == first_free(old(self)@),
            r.0 < old(self)@.len(),
            final(self)@ == old(self)@.update(r.0 as int, Some(value)),
            r.1 == is_full(final(self)@),
            final(self).refcount() == old(self).refcount(),
            final(self).ready() == old(self).ready(),
    {
        let allocated = self.header.allocated;
        let first_free = allocated.trailing_ones();
        proof {
            self.lemma_first_free_is_trailing_ones();
        }
        let ix = first_free as usize;
        let new_allocated = allocated | (1u64 << first_free);
        proof {
            assert forall|i: u64| i < 64 implies #[trigger] bit(new_allocated, i) == (bit(allocated, i)
                || i == first_free as u64) by {
                lemma_set_bit(allocated, first_free as u64, i);
            }
        }
        self.header.allocated = new_allocated;
        self.values.set(ix, Some(value));
        let newly_full = self.is_full();
        (ix, newly_full)
    }

    /// Destroys the element in slot `ix`. Says whether there was one: an index
    /// past the end or an empty slot is left as it is.
    pub fn free(&mut self, ix: usize) -> (r: bool)
        requires
            old(self).wf(),
        ensures
            final(self).wf(),
            r == (ix < old(self)@.len() && old(self)@[ix as int] is Some),
            final(self)@ == if r {
                old(self)@.update(ix as int, None)
            } else {
                old(self)@
            },
            final(self).refcount() == old(self).refcount(),
            final(self).ready() == old(self).ready(),
    {
        if ix >= self.values.len() {
            return false;
        }
        let allocated = self.header.allocated;
        proof {
            lemma_mask_test(allocated, ix as u64);
        }
        if allocated & (1u64 << ix as u64) == 0 {
            return false;
        }
        let new_allocated = allocated & !(1u64 << ix as u64);
        proof {
            assert forall|i: u64| i < 64 implies #[trigger] bit(new_allocated, i) == (bit(allocated, i)
                && i != ix as u64) by {
                lemma_clear_bit(allocated, ix as u64, i);
            }
        }
        self.values.set(ix, None);
        self.header.allocated = new_allocated;
        true
    }

    /// The element in slot `ix`, if there is one.
    pub fn get(&self, ix: usize) -> (r: Option<&T>)
        requires
            self.wf(),
        ensures
            ix < self@.len() && self@[ix as int] is Some ==> (r matches Some(v) && *v
                == self@[ix as int]->Some_0),
            !(ix < self@.len() && self@[ix as int] is Some) ==> r is None,
    {
        if ix >= self.values.len() {
            return None;
        }
        self.values[ix].as_ref()
    }

    /// Destroys every element still in the page, lowest slot first, and says how many.
    pub fn destroy_all(&mut self) -> (r: usize)
        requires
            old(self).wf(),
        ensures
            final(self).wf(),
            r == live_count(old(self)@),
            final(self)@ == empty_slots::<T>(old(self)@.len()),
            final(self).refcount() == old(self).refcount(),
            final(self).ready() == old(self).ready(),
    {
        let mut allocated = self.header.allocated;
        let mut destroyed: usize = 0;
        let ghost start = self@;
        proof {
            lemma_live_count_bound(start);
        }
        while allocated != 0
            invariant
                self.values@.len() == start.len(),
                1 <= start.len() <= MAX_SLOTS,
                forall|i: u64|
                    i < 64 ==> (#[trigger] bit(allocated, i) <==> (i < self.values@.len()
                        && self.values@[i as int] is Some)),
                destroyed + live_count(self.values@) == live_count(start),
                live_count(start) <= start.len(),
                self.header.refcount == old(self).header.refcount,
                self.header.ready == old(self).header.ready,
            decreases live_count(self.values@),
        {
            proof {
                lemma_clear_lowest(allocated);
            }
            let ix = allocated.trailing_zeros();
            let next = allocated & (allocated - 1);
            proof {
                assert forall|i: u64| i < 64 implies #[trigger] bit(next, i) == (bit(allocated, i) && i
                    != ix as u64) by {
                    lemma_clear_bit(allocated, ix as u64, i);
                }
                lemma_live_count_remove(self.values@, ix as int);
            }
            self.values.set(ix as usize, None);
            destroyed = destroyed + 1;
            allocated = next;
        }
        proof {
            lemma_zero_bits(allocated);
            assert forall|i: int| 0 <= i < self.values@.len() implies self.values@[i] is None by {
                assert(!bit(allocated, i as u64));
            }
            assert(self.values@ =~= empty_slots::<T>(start.len()));
            lemma_zero_bits(0u64);
            lemma_live_count_empty::<T>(start.len());
        }
        self.header.allocated = 0;
        destroyed
    }

    /// Takes one more handle to the page.
    pub fn clone_handle(&mut self)
        requires
            old(self).wf(),
            0 < old(self).refcount() < usize::MAX,
        ensures
            final(self).wf(),
            final(self)@ == old(self)@,
            final(self).refcount() == count_after_clone(old(self).refcount()),
            final(self).ready() == old(self).ready(),
    {
        self.header.refcount = self.header.refcount + 1;
    }

    /// Gives up one handle. The last one destroys every element still in the
    /// page and says how many; any other leaves the slots as they are.
    pub fn drop_handle(&mut self) -> (r: Option<usize>)
        requires
            old(self).wf(),
            old(self).refcount() > 0,
        ensures
            final(self).wf(),
            final(self).refcount() == count_after_drop(old(self).refcount()),
            r is Some == drop_releases(old(self).refcount()),
            r matches Some(n) ==> n == live_count(old(self)@) && final(self)@ == empty_slots::<T>(
                old(self)@.len(),
            ),
            r is None ==> final(self)@ == old(self)@,
            final(self).ready() == old(self).ready(),
    {
        if self.header.refcount == 1 {
            let n = self.destroy_all();
            self.header.refcount = 0;
            Some(n)
        } else {
            self.header.refcount = self.header.refcount - 1;
            None
        }
    }
}

} // verus!
