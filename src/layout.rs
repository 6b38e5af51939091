//! How many element slots fit in one page beside its header.
use vstd::prelude::*;

verus! {

/// Size and alignment of every page, in bytes.
pub const PAGE_SIZE: usize = 4096;

/// Width of a page's occupancy bitmap: no page has more slots than this.
pub const MAX_SLOTS: usize = 64;

/// Bytes needed after `size` bytes so that the next byte is aligned to `align`.
pub open spec fn padding_for(size: nat, align: nat) -> nat {
    if align == 0 {
        0
    } else {
        ((align - size % align) % (align as int)) as nat
    }
}

/// A header of `header_size` bytes and alignment `header_align`, followed by at
/// least one element of `value_size` bytes and alignment `value_align`, fits in a page.
pub open spec fn layout_fits(
    header_size: nat,
    header_align: nat,
    value_size: nat,
    value_align: nat,
) -> bool {
    &&& header_align <= PAGE_SIZE
    &&& value_size > 0
    &&& value_align > 0
    &&& header_size + padding_for(header_size, value_align) + value_size <= PAGE_SIZE
}

/// Number of elements that fit in a page after the header and its padding.
pub open spec fn values_per_page(header_size: nat, value_size: nat, value_align: nat) -> nat {
    ((PAGE_SIZE - (header_size + padding_for(header_size, value_align))) / (value_size as int)) as nat
}

/// Number of slots a page really offers: what fits, capped by the bitmap width.
pub open spec fn slots_for(values: nat) -> nat {
    if values <= MAX_SLOTS {
        values
    } else {
        MAX_SLOTS as nat
    }
}

/// The shape of one page: its byte size and alignment, and how many elements fit.
#[derive(Clone, Copy, Debug, PartialEq, Eq)]
pub struct PageLayout {
    pub size: usize,
    pub align: usize,
    pub num_values: usize,
}

impl PageLayout {
    /// Number of slots the occupancy bitmap can address in such a page.
    pub fn slots(&self) -> (r: usize)
        ensures
            r == slots_for(self.num_values as nat),
    {
        if self.num_values <= MAX_SLOTS {
            self.num_values
        } else {
            MAX_SLOTS
        }
    }
}

/// Computes the layout of a page whose header has the given size and alignment
/// and whose slots hold elements of the given size and alignment.
pub fn page_layout(header_size: usize, header_align: usize, value_size: usize, value_align: usize) -> (r: PageLayout)
    requires
        layout_fits(header_size as nat, header_align as nat, value_size as nat, value_align as nat),
    ensures
        r.size == PAGE_SIZE,
        r.align == PAGE_SIZE,
        r.num_values == values_per_page(header_size as nat, value_size as nat, value_align as nat),
        r.num_values >= 1,
{
    let padding = (value_align - header_size % value_align) % value_align;
    let used = header_size + padding;
    let num_values = (PAGE_SIZE - used) / value_size;
    proof {
        let room = PAGE_SIZE - used;
        assert(room >= value_size);
        assert(room / (value_size as int) >= 1) by (nonlinear_arith)
            requires
                room >= value_size,
                value_size > 0,
        ;
    }
    PageLayout { size: PAGE_SIZE, align: PAGE_SIZE, num_values }
}

} // verus!
