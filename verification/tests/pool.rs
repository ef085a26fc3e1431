//! Buffer pool and slot data.

use ioutgt::pool::{
    fill_subsegs, insert_run, BufPool, RingTable, Run, Seg, SlotData, MAX_SEGS, PAGE,
};

fn no_ring() -> Vec<u8> {
    Vec::new()
}

#[test]
fn owned_is_contiguous_and_page_sized() {
    let d = SlotData::owned(8 * 1024);
    assert!(d.is_contiguous());
    assert_eq!(d.segs().len(), 1);
    assert_eq!(d.len(), 8 * 1024);
    assert_eq!(d.segs()[0].len, 8 * 1024);
}

#[test]
fn owned_rounds_up_to_page() {
    let d = SlotData::owned(100);
    assert_eq!(d.len(), 4096);
}

#[test]
fn write_at_then_read_back_via_slice() {
    let mut p = BufPool::new(PAGE);
    let mut d = SlotData::owned(4096);
    d.write_at(&mut p, &mut no_ring(), 10, &[1, 2, 3, 4]);
    assert_eq!(&d.as_slice(&p, &[])[10..14], &[1, 2, 3, 4]);
}

#[test]
fn for_each_seg_visits_requested_range_contiguous() {
    let mut p = BufPool::new(PAGE);
    let mut d = SlotData::owned(4096);
    for i in 0..256u32 {
        d.write_at(&mut p, &mut no_ring(), i as usize, &[i as u8]);
    }
    let mut seen: Vec<u8> = Vec::new();
    d.for_each_seg(&p, &[], 64, 32, &mut seen);
    let want: Vec<u8> = (64u32..96).map(|i| i as u8).collect();
    assert_eq!(seen, want);
}

#[test]
fn contiguous_view_matches_manual_slice() {
    let mut p = BufPool::new(PAGE);
    let mut d = SlotData::owned(4096);
    d.as_mut_slice(&mut p, &mut no_ring())[..5].copy_from_slice(b"hello");
    let mut viaseg: Vec<u8> = Vec::new();
    d.for_each_seg(&p, &[], 0, 5, &mut viaseg);
    assert_eq!(&viaseg, b"hello");
    assert_eq!(&d.as_slice(&p, &[])[..5], b"hello");
}

#[test]
fn pool_rounds_to_pages() {
    let p = BufPool::new(4 * 1024 * 1024);
    assert_eq!(p.capacity_pages(), 1024);
    assert_eq!(p.free_pages(), 1024);
    let p2 = BufPool::new(100);
    assert_eq!(p2.capacity_pages(), 1);
}

#[test]
fn alloc_contiguous_then_free_coalesces() {
    let mut p = BufPool::new(4 * PAGE);
    {
        let d = p.lease(2 * PAGE).unwrap();
        assert!(d.is_contiguous());
        assert_eq!(d.len(), 2 * PAGE);
        assert_eq!(p.free_pages(), 2);
        assert_eq!(d.release(&mut p), None);
    }
    // The release returned the pages and coalesced back to one full run.
    assert_eq!(p.free_pages(), 4);
    let d = p.lease(4 * PAGE).unwrap();
    assert!(d.is_contiguous(), "fully coalesced run is contiguous again");
}

#[test]
fn alloc_returns_scatter_when_fragmented() {
    let mut p = BufPool::new(4 * PAGE);
    let a = p.lease(PAGE).unwrap(); // page 0
    let b = p.lease(PAGE).unwrap(); // page 1
    let c = p.lease(PAGE).unwrap(); // page 2
    let _d = p.lease(PAGE).unwrap(); // page 3
    assert_eq!(p.free_pages(), 0);
    // Free pages 0 and 2: two 1-page holes, non-adjacent.
    a.release(&mut p);
    c.release(&mut p);
    let _ = b; // keep page 1 held so the holes stay split
    assert_eq!(p.free_pages(), 2);
    let scattered = p.lease(2 * PAGE).unwrap();
    assert!(!scattered.is_contiguous());
    assert_eq!(scattered.segs().len(), 2);
    assert_eq!(scattered.len(), 2 * PAGE);
}

#[test]
fn alloc_none_when_exhausted() {
    let mut p = BufPool::new(2 * PAGE);
    let _a = p.lease(2 * PAGE).unwrap();
    assert!(p.lease(PAGE).is_none());
}

#[test]
fn scatter_roundtrips_bytes_across_segments() {
    let mut p = BufPool::new(4 * PAGE);
    let a = p.lease(PAGE).unwrap();
    let b = p.lease(PAGE).unwrap();
    let c = p.lease(PAGE).unwrap();
    let _d = p.lease(PAGE).unwrap();
    a.release(&mut p);
    c.release(&mut p);
    let _ = b;
    let mut s = p.lease(2 * PAGE).unwrap();
    assert!(!s.is_contiguous());
    // Write a pattern spanning the seam and read it back.
    let src: Vec<u8> = (0..2 * PAGE).map(|i| (i % 256) as u8).collect();
    s.write_at(&mut p, &mut no_ring(), 0, &src);
    let mut back: Vec<u8> = Vec::new();
    s.for_each_seg(&p, &[], 0, 2 * PAGE, &mut back);
    assert_eq!(back, src);
}

#[test]
fn alloc_await_wakes_on_free() {
    let mut p = BufPool::new(PAGE);
    let held = p.lease(PAGE).unwrap();
    assert_eq!(p.free_pages(), 0);
    // The waiter polls: nothing yet, and after the release its lease.
    assert!(p.lease(PAGE).is_none());
    held.release(&mut p);
    assert!(matches!(p.lease(PAGE), Some(d) if d.len() == PAGE));
}

#[test]
fn chunks_are_never_empty() {
    let mut p = BufPool::new(4 * PAGE);
    let a = p.lease(PAGE).unwrap();
    let _b = p.lease(PAGE).unwrap();
    let c = p.lease(PAGE).unwrap();
    let _d = p.lease(PAGE).unwrap();
    a.release(&mut p);
    c.release(&mut p);
    let s = p.lease(2 * PAGE).unwrap();
    let chunks = |off: usize, len: usize| -> Vec<usize> {
        fill_subsegs(s.segs(), off, len).iter().map(|c| c.len).collect()
    };
    assert_eq!(chunks(0, 2 * PAGE), vec![PAGE, PAGE]);
    assert_eq!(chunks(PAGE - 1, 2), vec![1, 1]);
    assert_eq!(chunks(0, PAGE), vec![PAGE], "the seam adds nothing");
    assert_eq!(chunks(PAGE, 5), vec![5]);
    assert!(chunks(7, 0).is_empty());
    assert!(chunks(2 * PAGE, 0).is_empty());
    let mut seen: Vec<u8> = vec![1];
    s.for_each_seg(&p, &[], 7, 0, &mut seen);
    assert_eq!(seen, vec![1], "an empty range hands nothing over");
}

#[test]
fn pages_add_up_to_the_capacity() {
    let mut p = BufPool::new(16 * PAGE);
    p.set_buf_index(1);
    let mut out: Vec<SlotData> = Vec::new();
    let mut set_aside = 0;
    for step in 0..60usize {
        match step % 7 {
            0 | 2 | 3 => out.extend(p.lease((step % 5) * PAGE + 1)),
            5 if step < 20 => {
                set_aside += p.reserve_arena(PAGE).map_or(0, |r| r.1 / PAGE);
            }
            _ => {
                if !out.is_empty() {
                    let d = out.remove(step % out.len());
                    d.release(&mut p);
                }
            }
        }
        let leased: usize = out.iter().map(|d| d.len() / PAGE).sum();
        assert_eq!(p.free_pages() as usize + leased + set_aside, p.capacity_pages() as usize);
    }
    assert_eq!(set_aside, 3);
}

#[test]
fn ring_buffer_reads_and_writes_the_ring() {
    let mut p = BufPool::new(PAGE);
    let mut ring: Vec<u8> = (0..=255).collect();
    let mut d = SlotData::ring(1, 16, 8);
    assert_eq!(d.as_slice(&p, &ring), &ring[16..24]);
    let mut seen: Vec<u8> = Vec::new();
    d.for_each_seg(&p, &ring, 2, 3, &mut seen);
    assert_eq!(seen, vec![18, 19, 20]);
    d.write_at(&mut p, &mut ring, 6, &[7, 7]);
    d.as_mut_slice(&mut p, &mut ring)[0] = 9;
    assert_eq!(&ring[14..26], &[14, 15, 9, 17, 18, 19, 20, 21, 7, 7, 24, 25]);
}

// A ring-backed buffer reports the provider's fixed-buffer index and returns
// the borrowed sub-buffer exactly when its life ends.
#[test]
fn ring_slotdata_reports_index_and_releases_on_drop() {
    let mut provider = RingTable { index: vec![None, Some(3)], done: Vec::new() };
    let mut p = BufPool::new(PAGE);
    let d = SlotData::ring(1, 0, 4096);
    assert_eq!(d.buf_index(&p, &provider), Some(3), "ring buf_index comes from provider");
    assert!(d.is_contiguous());
    assert_eq!(d.len(), 4096);
    assert!(provider.done.is_empty(), "no release while alive");
    d.release_to(&mut p, &mut provider);
    assert_eq!(provider.done, vec![1], "release(bid) ran at the end");
}

#[test]
fn fill_subsegs_contiguous_and_scattered() {
    let segs = vec![Seg { off: 1000, len: 100 }, Seg { off: 5000, len: 100 }];

    // Range fully inside the first segment: one sub-segment.
    let out = fill_subsegs(&segs, 10, 50);
    assert_eq!(out.len(), 1);
    assert_eq!((out[0].off, out[0].len), (1010, 50));

    // Range straddling the seam: tail of the first and head of the second.
    let out = fill_subsegs(&segs, 80, 40);
    assert_eq!(out.len(), 2);
    assert_eq!((out[0].off, out[0].len), (1080, 20));
    assert_eq!((out[1].off, out[1].len), (5000, 20));
}

#[test]
fn empty_range_has_no_subsegs() {
    let segs = vec![Seg { off: 0, len: 100 }];
    assert!(fill_subsegs(&segs, 10, 0).is_empty());
    assert!(fill_subsegs(&segs, 100, 5).is_empty());
}

#[test]
fn freed_runs_merge_with_both_neighbours() {
    let mut free = vec![Run { start: 0, len: 2 }, Run { start: 5, len: 3 }];
    insert_run(&mut free, Run { start: 2, len: 3 }, 16);
    assert_eq!(free.len(), 1);
    assert_eq!((free[0].start, free[0].len), (0, 8));
    insert_run(&mut free, Run { start: 10, len: 1 }, 16);
    assert_eq!(free.len(), 2);
    insert_run(&mut free, Run { start: 8, len: 1 }, 16);
    assert_eq!((free[0].start, free[0].len), (0, 9));
    assert_eq!((free[1].start, free[1].len), (10, 1));
}

#[test]
fn release_undoes_a_lease() {
    let mut p = BufPool::new(8 * PAGE);
    let a = p.lease(3 * PAGE).unwrap();
    let before: Vec<(u32, u32)> = p.free.iter().map(|r| (r.start, r.len)).collect();
    let b = p.lease(2 * PAGE).unwrap();
    b.release(&mut p);
    let after: Vec<(u32, u32)> = p.free.iter().map(|r| (r.start, r.len)).collect();
    assert_eq!(before, after);
    a.release(&mut p);
    assert_eq!(p.free_pages(), 8);
}

#[test]
fn too_many_fragments_refuse_a_lease() {
    // Every other page held: MAX_SEGS + 1 one-page holes.
    let n = 2 * (MAX_SEGS + 1);
    let mut p = BufPool::new(n * PAGE);
    let mut held = Vec::new();
    for _ in 0..n {
        held.push(p.lease(PAGE).unwrap());
    }
    let mut keep = Vec::new();
    for (i, d) in held.into_iter().enumerate() {
        if i % 2 == 0 {
            d.release(&mut p);
        } else {
            keep.push(d);
        }
    }
    assert_eq!(p.free_pages() as usize, MAX_SEGS + 1);
    assert!(p.lease((MAX_SEGS + 1) * PAGE).is_none());
    let d = p.lease(MAX_SEGS * PAGE).unwrap();
    assert_eq!(d.segs().len(), MAX_SEGS);
}

#[test]
fn writes_stay_inside_their_lease() {
    let mut p = BufPool::new(2 * PAGE);
    let mut a = p.lease(PAGE).unwrap();
    let mut b = p.lease(PAGE).unwrap();
    a.write_at(&mut p, &mut no_ring(), 0, &[0xAA; PAGE]);
    b.write_at(&mut p, &mut no_ring(), 0, &[0xBB; PAGE]);
    assert!(a.as_slice(&p, &[]).iter().all(|x| *x == 0xAA));
    assert!(b.as_slice(&p, &[]).iter().all(|x| *x == 0xBB));
    assert!(a.is_pool() && !SlotData::owned(1).is_pool());
    assert!(SlotData::empty().is_empty());
}

#[test]
fn reserved_arena_leaves_the_pool() {
    let mut p = BufPool::new(4 * PAGE);
    assert_eq!(p.reserve_arena(100), None, "the pool is not registered");
    p.set_buf_index(7);
    let (off, len) = p.reserve_arena(100).unwrap();
    assert_eq!(len, PAGE);
    assert_eq!(off % PAGE, 0);
    assert_eq!(p.send_arena(), Some((off, len)));
    assert_eq!(p.free_pages(), 3);
    assert_eq!(p.reserve_arena(4 * PAGE), None, "no run that large");
    assert_eq!(p.buf_index(), Some(7));
    assert_eq!(p.take_buf_index(), Some(7));
    assert_eq!(p.buf_index(), None);
    assert_eq!(p.arena().len(), 4 * PAGE);
}
