use async_slab::{element_fits_for, page_layout, Page, Root, Timer, TimerRc, MAX_SLOTS, PAGE_SIZE};
use std::cell::Cell;
use std::rc::Rc;

/// An element that counts how often it is destroyed.
struct Counted {
    drops: Rc<Cell<usize>>,
}

impl Drop for Counted {
    fn drop(&mut self) {
        self.drops.set(self.drops.get() + 1);
    }
}

fn counted(drops: &Rc<Cell<usize>>) -> Counted {
    Counted { drops: drops.clone() }
}

#[test]
fn layout_counts_slots_after_header() {
    let l = page_layout(24, 8, 8, 8);
    assert_eq!(l.size, PAGE_SIZE);
    assert_eq!(l.align, PAGE_SIZE);
    assert_eq!(l.num_values, 509);
    assert_eq!(l.slots(), MAX_SLOTS);
}

#[test]
fn layout_pads_header_to_element_alignment() {
    // 20 header bytes, padded to 32 for 16-byte elements: (4096 - 32) / 16.
    let l = page_layout(20, 4, 16, 16);
    assert_eq!(l.num_values, 254);
    // No padding needed for byte-aligned elements.
    let l = page_layout(20, 4, 1000, 1);
    assert_eq!(l.num_values, 4);
    assert_eq!(l.slots(), 4);
}

#[test]
fn layout_single_slot() {
    let l = page_layout(24, 8, 4072, 1);
    assert_eq!(l.num_values, 1);
}

#[test]
fn page_allocates_lowest_free_slot() {
    let mut page: Page<u64> = Page::new();
    assert_eq!(page.capacity(), 64);
    assert_eq!(page.allocate(10), (0, false));
    assert_eq!(page.allocate(11), (1, false));
    assert_eq!(page.allocate(12), (2, false));
    assert!(page.free(1));
    assert_eq!(page.allocate(13), (1, false));
    assert_eq!(page.get(1), Some(&13));
    assert_eq!(page.get(2), Some(&12));
}

#[test]
fn page_reports_full() {
    let mut page: Page<u64> = Page::new();
    for i in 0..63u64 {
        let (slot, full) = page.allocate(i);
        assert_eq!(slot, i as usize);
        assert!(!full);
    }
    assert!(!page.is_full());
    assert_eq!(page.allocate(63), (63, true));
    assert!(page.is_full());
    assert!(page.free(5));
    assert!(!page.is_full());
    assert_eq!(page.allocate(99), (5, true));
}

#[test]
fn page_free_and_get_on_absent_slots() {
    let mut page: Page<u64> = Page::new();
    assert!(!page.free(0));
    assert!(!page.free(64));
    assert!(!page.free(usize::MAX));
    assert_eq!(page.get(0), None);
    assert_eq!(page.get(64), None);
    page.allocate(7);
    assert!(page.free(0));
    assert!(!page.free(0));
    assert_eq!(page.get(0), None);
}

#[test]
fn page_last_handle_destroys_elements() {
    let drops = Rc::new(Cell::new(0));
    let mut page: Page<Counted> = Page::new();
    for _ in 0..5 {
        page.allocate(counted(&drops));
    }
    assert!(page.free(3));
    assert_eq!(drops.get(), 1);
    page.clone_handle();
    assert_eq!(page.drop_handle(), None);
    assert_eq!(drops.get(), 1);
    assert_eq!(page.drop_handle(), Some(4));
    assert_eq!(drops.get(), 5);
    assert_eq!(page.get(0).map(|_| ()), None);
}

#[test]
fn round_trip_allocate_get_free() {
    let mut root: Root<String> = Root::new();
    let key = root.allocate("hello".to_string());
    assert_eq!(key, (0, 0));
    assert_eq!(root.get(key.0, key.1), Some(&"hello".to_string()));
    assert!(root.free(key.0, key.1));
    assert_eq!(root.get(key.0, key.1), None);
    assert!(!root.free(key.0, key.1));
}

#[test]
fn stale_and_out_of_range_keys_are_absent() {
    let mut root: Root<u32> = Root::new();
    assert_eq!(root.get(0, 0), None);
    assert!(!root.free(0, 0));
    root.allocate(1);
    assert_eq!(root.get(1, 0), None);
    assert_eq!(root.get(0, 1), None);
    assert_eq!(root.get(0, 64), None);
    assert!(!root.free(5, 0));
    assert!(!root.free(0, 64));
    assert_eq!(root.get(0, 0), Some(&1));
}

#[test]
fn elements_stay_under_their_keys() {
    let mut root: Root<u64> = Root::new();
    let mut keys = Vec::new();
    for i in 0..150u64 {
        keys.push((root.allocate(i * 3), i * 3));
    }
    for (i, (k, _)) in keys.iter().enumerate() {
        if i % 4 == 1 {
            assert!(root.free(k.0, k.1));
        }
    }
    for (i, (k, v)) in keys.iter().enumerate() {
        if i % 4 == 1 {
            assert_eq!(root.get(k.0, k.1), None);
        } else {
            assert_eq!(root.get(k.0, k.1), Some(v));
        }
    }
}

#[test]
fn allocation_grows_pages() {
    let mut root: Root<[u8; 1000]> = Root::new();
    let cap = root.page_capacity();
    assert_eq!(cap, 4);
    for i in 0..cap {
        assert_eq!(root.allocate([i as u8; 1000]), (0, i));
    }
    assert_eq!(root.num_pages(), 1);
    assert_eq!(root.allocate([9; 1000]), (1, 0));
    assert_eq!(root.num_pages(), 2);
    for n in 0..20usize {
        let k = root.allocate([1; 1000]);
        assert_eq!(k, (1 + (n + 1) / cap, (n + 1) % cap));
    }
}

#[test]
fn single_slot_pages() {
    let mut root: Root<[u8; 4000]> = Root::new();
    assert_eq!(root.page_capacity(), 1);
    assert_eq!(root.allocate([1; 4000]), (0, 0));
    assert_eq!(root.allocate([2; 4000]), (1, 0));
    assert!(root.free(0, 0));
    assert_eq!(root.allocate([3; 4000]), (0, 0));
    assert_eq!(root.allocate([4; 4000]), (2, 0));
    assert_eq!(root.get(0, 0).map(|a| a[0]), Some(3));
}

#[test]
fn freed_slot_is_reused_before_growth() {
    let mut root: Root<u64> = Root::new();
    let cap = root.page_capacity();
    for i in 0..(2 * cap) {
        root.allocate(i as u64);
    }
    assert_eq!(root.num_pages(), 2);
    assert!(root.free(1, 7));
    assert!(root.free(0, 30));
    assert_eq!(root.allocate(100), (0, 30));
    assert_eq!(root.allocate(101), (1, 7));
    assert_eq!(root.allocate(102), (2, 0));
}

#[test]
fn full_page_scenario() {
    let mut root: Root<u64> = Root::new();
    let c = root.page_capacity();
    let mut seen = std::collections::HashSet::new();
    for i in 0..c {
        let (p, s) = root.allocate(i as u64);
        assert_eq!(p, 0);
        assert!(seen.insert((p, s)));
    }
    assert_eq!(seen.len(), c);
    let (p, s) = root.allocate(1000);
    assert_eq!((p, s), (1, 0));
    assert_eq!(root.num_pages(), 2);
    for slot in 0..c {
        assert!(root.free(0, slot));
    }
    assert_eq!(root.allocate(2000), (0, 0));
    assert_eq!(root.num_pages(), 2);
    assert_eq!(root.get(1, 0), Some(&1000));
}

#[test]
fn teardown_destroys_each_live_element_once() {
    let drops = Rc::new(Cell::new(0));
    let mut root: Root<Counted> = Root::new();
    let mut keys = Vec::new();
    for _ in 0..200 {
        keys.push(root.allocate(counted(&drops)));
    }
    let mut freed = 0;
    for (i, k) in keys.iter().enumerate() {
        if i % 3 == 0 || (i > 70 && i < 140) {
            assert!(root.free(k.0, k.1));
            freed += 1;
        }
    }
    assert_eq!(drops.get(), freed);
    let destroyed = root.drop_handle();
    assert_eq!(destroyed, Some(200 - freed));
    assert_eq!(drops.get(), 200);
    assert_eq!(root.num_pages(), 0);
}

#[test]
fn teardown_of_empty_arena() {
    let mut root: Root<u8> = Root::new();
    assert_eq!(root.drop_handle(), Some(0));
}

#[test]
fn handle_count_balances() {
    let drops = Rc::new(Cell::new(0));
    let mut root: Root<Counted> = Root::new();
    root.allocate(counted(&drops));
    root.allocate(counted(&drops));
    for _ in 0..5 {
        root.clone_handle();
    }
    for _ in 0..5 {
        assert_eq!(root.drop_handle(), None);
        assert_eq!(drops.get(), 0);
    }
    assert!(root.get(0, 1).is_some());
    assert_eq!(root.drop_handle(), Some(2));
    assert_eq!(drops.get(), 2);
}

#[test]
fn added_page_is_empty_and_used_last() {
    let mut root: Root<u16> = Root::new();
    assert_eq!(root.add_page(), 0);
    assert_eq!(root.add_page(), 1);
    assert_eq!(root.get(1, 0), None);
    assert_eq!(root.allocate(5), (0, 0));
}

#[test]
fn timer_reads_and_advances() {
    let mut t = Timer::new(100);
    assert_eq!(t.now(), 100);
    t.advance_clock(250);
    assert_eq!(t.now(), 250);
    let shared = TimerRc::new(t);
    let other = TimerRc(shared.0.clone());
    assert_eq!(other.timer().now(), 250);
    assert_eq!(shared.timer().now(), 250);
}

#[test]
fn first_fit_past_sixty_four_pages() {
    let mut root: Root<[u8; 4000]> = Root::new();
    assert_eq!(root.page_capacity(), 1);
    for i in 0..66usize {
        assert_eq!(root.allocate([0; 4000]), (i, 0));
    }
    assert!(root.free(0, 0));
    assert!(root.free(1, 0));
    assert_eq!(root.allocate([1; 4000]), (0, 0));
    assert_eq!(root.allocate([2; 4000]), (1, 0));
    assert_eq!(root.num_pages(), 66);
    assert!(root.free(65, 0));
    assert!(root.free(64, 0));
    assert!(root.free(3, 0));
    assert_eq!(root.allocate([3; 4000]), (3, 0));
    assert_eq!(root.allocate([4; 4000]), (64, 0));
    assert_eq!(root.allocate([5; 4000]), (65, 0));
    assert_eq!(root.allocate([6; 4000]), (66, 0));
    assert_eq!(root.num_pages(), 67);
}

#[test]
fn element_fit_checks() {
    assert!(element_fits_for::<u64>());
    assert!(element_fits_for::<[u8; 4000]>());
    assert!(!element_fits_for::<[u8; 5000]>());
    assert!(!element_fits_for::<()>());
}

#[test]
fn timer_can_be_set_back() {
    let mut t = Timer::new(500);
    t.advance_clock(20);
    assert_eq!(t.now(), 20);
}
