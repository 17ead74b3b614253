use brentos::allocator::{Allocator, Layout, LocalAlloc, BIN_COUNT_MAX};
use brentos::bw_allocator::bin::{AllocStep, Allocator as BinAllocator};
use brentos::bw_allocator::Allocator as UserAllocator;
use brentos::util::{align_down, align_up, has_alignment};

#[test]
fn align_down_rounds_to_multiple() {
    assert_eq!(align_down(0, 2), 0);
    assert_eq!(align_down(0, 8), 0);
    assert_eq!(align_down(7, 8), 0);
    assert_eq!(align_down(8, 8), 8);
    assert_eq!(align_down(9, 8), 8);
    assert_eq!(align_down(0x1234, 0x1000), 0x1000);
    assert_eq!(align_down(usize::MAX, 1 << 4), usize::MAX - 15);
}

#[test]
fn align_up_rounds_to_multiple() {
    assert_eq!(align_up(0, 2), 0);
    assert_eq!(align_up(1, 2), 2);
    assert_eq!(align_up(7, 8), 8);
    assert_eq!(align_up(8, 8), 8);
    assert_eq!(align_up(9, 8), 16);
    assert_eq!(align_up(0x1001, 0x1000), 0x2000);
}

#[test]
fn has_alignment_checks_multiples() {
    assert!(has_alignment(0, 8));
    assert!(has_alignment(16, 8));
    assert!(!has_alignment(12, 8));
    assert!(has_alignment(12, 4));
    assert!(has_alignment(13, 1));
}

#[test]
fn bin_sizes_double() {
    assert_eq!(Allocator::bin_size(0), 8);
    assert_eq!(Allocator::bin_size(1), 16);
    assert_eq!(Allocator::bin_size(10), 8192);
    assert_eq!(Allocator::bin_size(BIN_COUNT_MAX - 1), 1 << 29);
}

#[test]
fn map_to_bin_picks_smallest_fitting_bin() {
    let a = Allocator::new(0x1000, 0x10_0000);
    assert_eq!(a.map_to_bin(&Layout { size: 1, align: 1 }), 0);
    assert_eq!(a.map_to_bin(&Layout { size: 8, align: 1 }), 0);
    assert_eq!(a.map_to_bin(&Layout { size: 9, align: 1 }), 1);
    assert_eq!(a.map_to_bin(&Layout { size: 4, align: 64 }), 3);
    assert_eq!(Allocator::map_to_bin_of(&Layout { size: 4096, align: 8 }), 9);
}

#[test]
fn kernel_alloc_carves_aligned_blocks() {
    let mut a = Allocator::new(0x1004, 0x10_0000);
    let p = a.alloc_block(Layout { size: 16, align: 8 });
    assert_eq!(p, 0x1010);
    let q = a.alloc_block(Layout { size: 16, align: 8 });
    assert_eq!(q, 0x1020);
    let r = a.alloc_block(Layout { size: 100, align: 4 });
    assert_eq!(r, 0x1080);
}

#[test]
fn kernel_dealloc_then_alloc_reuses_block() {
    let mut a = Allocator::new(0x1000, 0x10_0000);
    let layout = Layout { size: 24, align: 8 };
    let p = a.alloc_block(layout);
    let q = a.alloc_block(layout);
    assert_ne!(p, q);
    a.dealloc_block(p, layout);
    assert_eq!(a.alloc_block(layout), p);
    assert_eq!(a.alloc_block(layout), q + 32);
}

#[test]
fn kernel_alloc_reports_exhaustion_with_zero() {
    let mut a = Allocator::new(0x1000, 0x1010);
    assert_eq!(a.alloc_block(Layout { size: 16, align: 16 }), 0x1000);
    assert_eq!(a.alloc_block(Layout { size: 16, align: 16 }), 0);
    assert_eq!(a.alloc_block(Layout { size: 8, align: 8 }), 0);
}

#[test]
fn kernel_alloc_skips_misaligned_free_blocks() {
    let mut a = Allocator::new(0x1000, 0x10_0000);
    let small = Layout { size: 16, align: 16 };
    a.dealloc_block(0x2008, small);
    let p = a.alloc_block(small);
    assert_eq!(p, 0x1000);
    assert_eq!(a.alloc_block(Layout { size: 16, align: 8 }), 0x2008);
}

#[test]
fn user_allocator_initializes_once() {
    let mut u = UserAllocator::new();
    assert!(!u.is_initialized());
    u.initialize(0x4000);
    assert!(u.is_initialized());
    u.initialize(0x8000);
    assert!(u.is_initialized());
}

#[test]
fn user_bin_allocator_grows_then_reuses() {
    let mut b = BinAllocator::new(0x4004);
    let layout = Layout { size: 32, align: 8 };
    match b.alloc_step(layout) {
        AllocStep::Grow { aligned, end, request } => {
            assert_eq!(aligned, 0x4020);
            assert_eq!(end, 0x4040);
            assert_eq!(request, 0x3c);
            assert_eq!(b.finish_grow(aligned, end, true), 0x4020);
        }
        AllocStep::Ready(_) => panic!("nothing was freed yet"),
    }
    b.dealloc_block(0x4020, layout);
    match b.alloc_step(layout) {
        AllocStep::Ready(p) => assert_eq!(p, 0x4020),
        AllocStep::Grow { .. } => panic!("a freed block fits"),
    }
}

#[test]
fn user_bin_allocator_refused_growth_returns_zero() {
    let mut b = BinAllocator::new(0x4000);
    let layout = Layout { size: 8, align: 8 };
    match b.alloc_step(layout) {
        AllocStep::Grow { aligned, end, .. } => {
            assert_eq!(b.finish_grow(aligned, end, false), 0);
        }
        AllocStep::Ready(_) => panic!("nothing was freed yet"),
    }
    match b.alloc_step(layout) {
        AllocStep::Grow { aligned, request, .. } => {
            assert_eq!(aligned, 0x4000);
            assert_eq!(request, 8);
        }
        AllocStep::Ready(_) => panic!("nothing was freed yet"),
    }
}

#[test]
fn allocation_at_the_top_of_memory_runs_out_cleanly() {
    let mut a = Allocator::new(usize::MAX - 16, usize::MAX);
    assert_eq!(a.alloc_block(Layout { size: 16, align: 16 }), 0);
    let mut b = Allocator::new(usize::MAX - 63, usize::MAX);
    let p = b.alloc_block(Layout { size: 16, align: 16 });
    assert_ne!(p, 0);
    assert_eq!(p % 16, 0);
}
