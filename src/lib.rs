//! A page-based slab arena: fixed-size pages of element slots indexed by a
//! 64-bit occupancy bitmap, and an arena that keeps a set of pages with free
//! space so that allocation is first fit by page index.

mod bits;
mod bitset;
pub mod handle;
pub mod laws;
pub mod layout;
pub mod page;
pub mod root;
pub mod timer;

pub use layout::{page_layout, PageLayout, MAX_SLOTS, PAGE_SIZE};
pub use page::{element_fits_for, Page, PageHeader};
pub use root::{Root, MAX_PAGES};
pub use timer::{Timer, TimerRc};
