//! File and block-device backend: geometry, transfers, discard, zeroing.

use ioutgt::config::BackendConfig;
use ioutgt::file::{
    advance_iovecs, after_direct_open, direct_usable, fallocate_mode_unsupported, fill_iovecs,
    map_errno, plan_backend, probe_shift, unmap_hint_declined, BackendError, BackendPlan, Dio,
    FileBackend, Kind, LbaRange, OpResult, OpenStep, RwStep, StoreError, ZeroStep, EBUSY, EINVAL,
    EIO, ENOSPC, EOPNOTSUPP, FALLOC_PUNCH, FALLOC_ZERO, S_IFBLK, S_IFREG,
};
use ioutgt::pool::Seg;

/// A regular file of `size` bytes on a store that reports `dio_off`.
fn open(size: i64, dio_off: u32, direct: bool) -> FileBackend {
    match FileBackend::open(S_IFREG | 0o644, size, 0, dio_off, 4096, direct) {
        Ok(be) => be,
        Err(_) => panic!("open failed"),
    }
}

/// Move `segs` of `mem` to or from `disk`, at most `step` bytes at a time.
fn transfer(
    be: &mut FileBackend,
    disk: &mut Vec<u8>,
    write: bool,
    slba: u64,
    mem: &mut Vec<u8>,
    segs: &Vec<Seg>,
    total: usize,
    step: usize,
) -> Result<(), BackendError> {
    let mut t = be.rwv(write, slba, fill_iovecs(segs, total), total)?;
    let mut s = be.rwv_next(&t);
    loop {
        match s {
            RwStep::Finished => return Ok(()),
            RwStep::Failed { error } => return Err(error),
            RwStep::Issue { idx, off, .. } => {
                let mut moved = 0usize;
                for seg in &t.iovs[idx..] {
                    for k in 0..seg.len {
                        if moved < step {
                            let at = off as usize + moved;
                            if write {
                                disk[at] = mem[seg.off + k];
                            } else {
                                mem[seg.off + k] = disk[at];
                            }
                            moved += 1;
                        }
                    }
                }
                s = be.rwv_result(&mut t, OpResult::Done { n: moved as u32 });
            }
        }
    }
}

/// Run a zeroing plan on `disk`; `modes` are the fallocate modes it supports.
fn zero(be: &FileBackend, disk: &mut Vec<u8>, range: LbaRange, modes: &[i32]) -> Vec<i32> {
    let mut asked = Vec::new();
    let mut z = match be.write_zeroes(range) {
        Ok(z) => z,
        Err(_) => panic!("out of range"),
    };
    let mut s = z.next();
    loop {
        match s {
            ZeroStep::Finished => return asked,
            ZeroStep::Failed { error } => panic!("{error:?}"),
            ZeroStep::Fallocate { mode, off, len } => {
                asked.push(mode);
                if modes.contains(&mode) {
                    for b in &mut disk[off as usize..(off + len) as usize] {
                        *b = 0;
                    }
                    s = z.result(OpResult::Done { n: 0 });
                } else {
                    s = z.result(OpResult::Failed { errno: EOPNOTSUPP });
                }
            }
            ZeroStep::Write { off, want } => {
                for b in &mut disk[off as usize..off as usize + want as usize] {
                    *b = 0;
                }
                s = z.result(OpResult::Done { n: want });
            }
        }
    }
}

#[test]
fn unmap_errors_are_classified_like_nvmet() {
    // Deallocate is a hint. Only "the store cannot unmap" and "the store
    // declined right now" are swallowed. EINVAL is a misaligned or empty
    // range: a geometry bug that must surface, never a no-op.
    assert!(unmap_hint_declined(Some(libc::EOPNOTSUPP)));
    assert!(unmap_hint_declined(Some(libc::EBUSY)));
    assert!(!unmap_hint_declined(Some(libc::EINVAL)));
    assert!(!unmap_hint_declined(Some(libc::EIO)));
    assert!(!unmap_hint_declined(Some(libc::ENOSPC)));
    assert!(!unmap_hint_declined(None));
}

#[test]
fn only_unsupported_mode_advances_the_zeroing_chain() {
    // Zero range, punch hole, zero writes: a mode the store lacks moves on; a
    // real error is the answer and must not be retried through a slower path.
    assert!(fallocate_mode_unsupported(Some(libc::EOPNOTSUPP)));
    assert!(!fallocate_mode_unsupported(Some(libc::EIO)));
    assert!(!fallocate_mode_unsupported(Some(libc::ENOSPC)));
    assert!(!fallocate_mode_unsupported(Some(libc::EINVAL)));
    assert!(!fallocate_mode_unsupported(None));
}

#[test]
fn ring_off_keeps_direct_regardless_of_dio_alignment() {
    // The default (ring off) path only writes from page-aligned pool buffers,
    // so direct IO is kept whatever the store reports, including a store that
    // cannot report its alignment (0, 0).
    for (dio_mem, dio_off) in [(512u32, 512u32), (4096, 4096), (8, 8), (0, 0)] {
        assert!(
            direct_usable(false, dio_mem, dio_off, 9),
            "ring off must keep O_DIRECT (dio_mem={dio_mem}, dio_off={dio_off})"
        );
    }
}

#[test]
fn ring_on_gates_direct_on_dword_alignment() {
    // Ring on: payloads may be 4-byte-aligned ring memory. Keep direct IO only
    // for NVMe-class stores (mem align <= 4, offset align <= block).
    assert!(direct_usable(true, 4, 512, 9), "NVMe-class: 4-byte mem, 512 off");
    assert!(direct_usable(true, 1, 1, 9), "byte-aligned store");
    assert!(!direct_usable(true, 512, 512, 9), "512-byte mem align too coarse");
    assert!(!direct_usable(true, 4096, 4096, 12), "4K mem align too coarse");
    assert!(!direct_usable(true, 0, 0, 9), "unreportable DIOALIGN -> buffered");
    // Offset alignment coarser than the logical block is unusable.
    assert!(!direct_usable(true, 4, 8192, 9), "8K offset align > 512 block");
    assert!(direct_usable(true, 4, 4096, 12), "4K offset align == 4K block ok");
}

#[test]
fn direct_write_read_roundtrip() {
    for step in [131_072usize, 5000] {
        let mut be = open(8 << 20, 512, true);
        let mut disk = vec![0xEEu8; 8 << 20];
        let shift = be.block_shift();
        let bs = 1u64 << shift;
        assert_eq!(be.nr_blocks(), (8u64 << 20) >> shift);
        // 128 KiB region starting 32 KiB in; zero the first 8 KiB of it.
        let base = (32 << 10) / bs;
        let eight_k = (8192 / bs) as u32;
        let pattern: Vec<u8> = (0..128 * 1024).map(|i| (i % 251) as u8).collect();
        let whole = vec![Seg { off: 0, len: 128 * 1024 }];

        let mut buf = pattern.clone();
        transfer(&mut be, &mut disk, true, base, &mut buf, &whole, 128 * 1024, step).unwrap();
        let mut out = vec![0u8; 128 * 1024];
        transfer(&mut be, &mut disk, false, base, &mut out, &whole, 128 * 1024, step).unwrap();
        assert_eq!(out, pattern, "128K roundtrip");

        // Write-zeroes the first 8K of the range and re-check.
        zero(&be, &mut disk, LbaRange { slba: base, nlb: eight_k }, &[FALLOC_ZERO]);
        transfer(&mut be, &mut disk, false, base, &mut out, &whole, 128 * 1024, step).unwrap();
        assert!(out[..8192].iter().all(|&b| b == 0), "zeroed range");
        assert_eq!(&out[8192..], &pattern[8192..], "rest untouched");

        // Discard is a hint: it must succeed where the store declines.
        let op = be.discard(LbaRange { slba: base, nlb: eight_k * 16 }).unwrap();
        assert_eq!((op.off, op.len), (32 << 10, 128 * 1024));
        assert!(FileBackend::discard_result(OpResult::Failed { errno: EOPNOTSUPP }).is_ok());
        assert!(FileBackend::discard_result(OpResult::Failed { errno: EINVAL }).is_err());

        // Out-of-range rejected.
        let one = vec![Seg { off: 0, len: bs as usize }];
        let last = be.nr_blocks();
        let err =
            transfer(&mut be, &mut disk, false, last, &mut out, &one, bs as usize, step).err();
        assert_eq!(err, Some(BackendError::OutOfRange));
    }
}

#[test]
fn scattered_write_matches_contiguous() {
    // A two-segment vectored write must land byte-identically to one
    // contiguous write of the concatenation, however it is cut short.
    for step in [12_288usize, 7000, 1] {
        let mut be = open(8 << 20, 512, true);
        let mut disk = vec![0u8; 8 << 20];
        let mut mem = vec![0u8; 64 * 1024];
        for b in &mut mem[0..8192] {
            *b = 0xAB;
        }
        for b in &mut mem[40_960..45_056] {
            *b = 0xCD;
        }
        let segs = vec![Seg { off: 0, len: 8192 }, Seg { off: 40_960, len: 4096 }];
        transfer(&mut be, &mut disk, true, 0, &mut mem, &segs, 12_288, step).unwrap();
        let mut r = vec![0u8; 12_288];
        let rsegs = vec![Seg { off: 0, len: 12_288 }];
        transfer(&mut be, &mut disk, false, 0, &mut r, &rsegs, 12_288, step).unwrap();
        assert!(r[..8192].iter().all(|&x| x == 0xAB), "first segment");
        assert!(r[8192..].iter().all(|&x| x == 0xCD), "second segment");
    }
}

#[test]
fn ring_off_keeps_direct_on_real_fs() {
    // A store that takes direct IO and reports a memory alignment of 512: with
    // the receive ring off, direct IO must be kept.
    let dio = Dio { mem: 512, off: 512, blksize: 4096 };
    let off = after_direct_open(Ok(dio), false);
    assert!(matches!(off, OpenStep::Direct), "ring off on a real fs must keep O_DIRECT");
    // Ring on is never more permissive than ring off.
    let on = after_direct_open(Ok(dio), true);
    assert!(matches!(off, OpenStep::Direct) || !matches!(on, OpenStep::Direct));
    assert!(matches!(on, OpenStep::Buffered));
}

#[test]
fn open_rejects_missing_and_tiny() {
    assert!(matches!(after_direct_open(Err(2), false), OpenStep::Fail { errno: 2 }));
    // A store without direct IO is opened buffered.
    assert!(matches!(after_direct_open(Err(EINVAL), false), OpenStep::Buffered));
    // Less than one block.
    assert_eq!(
        FileBackend::open(S_IFREG, 256, 0, 512, 4096, true).err(),
        Some(StoreError::TooSmall)
    );
    assert_eq!(
        FileBackend::open(0o040_000, 8 << 20, 0, 512, 4096, true).err(),
        Some(StoreError::NotAStore)
    );
}

#[test]
fn advertised_block_is_dio_aligned() {
    for align in [512u32, 1024, 2048, 4096] {
        let be = open(8 << 20, align, true);
        let shift = be.block_shift();
        assert!((9..=12).contains(&shift), "block shift {shift} outside 512B..4K");
        assert_eq!((1u64 << shift) % u64::from(align), 0);
        assert_eq!(be.nr_blocks(), (8u64 << 20) >> shift);
    }
    // No alignment reported: the filesystem block size stands in.
    for blk in [512u64, 4096, 16_384, 100] {
        let want = blk.clamp(512, 4096).next_power_of_two();
        assert_eq!(1u64 << probe_shift(0, blk), want);
    }
}

#[test]
fn zeroing_chain_falls_through_modes() {
    let be = open(1 << 20, 512, true);
    let range = LbaRange { slba: 0, nlb: 300 };
    let mut disk = vec![7u8; 1 << 20];
    let asked = zero(&be, &mut disk, range, &[FALLOC_PUNCH]);
    assert_eq!(asked, vec![FALLOC_ZERO, FALLOC_PUNCH]);
    let end = 300usize << be.block_shift();
    assert!(disk[..end].iter().all(|b| *b == 0) && disk[end..].iter().all(|b| *b == 7));

    // No mode supported: plain writes of zeroes.
    let mut disk = vec![7u8; 1 << 20];
    let asked = zero(&be, &mut disk, range, &[]);
    assert!(asked.len() >= 2);
    assert!(disk[..end].iter().all(|b| *b == 0) && disk[end..].iter().all(|b| *b == 7));
}

#[test]
fn device_size_is_the_devices_own() {
    match FileBackend::open(S_IFBLK | 0o660, 0, 1 << 20, 512, 4096, true) {
        Ok(be) => {
            assert_eq!(be.kind, Kind::Block);
            assert_eq!(be.nr_blocks(), 2048);
            assert!(be.is_direct());
        }
        Err(_) => panic!("open failed"),
    }
}

#[test]
fn errno_classes() {
    assert_eq!(map_errno(ENOSPC), BackendError::NoSpace);
    assert_eq!(map_errno(EOPNOTSUPP), BackendError::Unsupported);
    assert_eq!(map_errno(EIO), BackendError::Io(EIO));
    assert_eq!(
        (EIO, EBUSY, EINVAL, ENOSPC, EOPNOTSUPP),
        (libc::EIO, libc::EBUSY, libc::EINVAL, libc::ENOSPC, libc::EOPNOTSUPP)
    );
    assert_eq!((S_IFBLK, S_IFREG), (libc::S_IFBLK, libc::S_IFREG));
    assert_eq!(
        FALLOC_PUNCH,
        libc::FALLOC_FL_PUNCH_HOLE | libc::FALLOC_FL_KEEP_SIZE
    );
    assert_eq!(FALLOC_ZERO, libc::FALLOC_FL_ZERO_RANGE);
}

#[test]
fn short_transfer_resumes_mid_entry() {
    let mut iovs = vec![Seg { off: 0, len: 10 }, Seg { off: 100, len: 10 }];
    let mut idx = 0usize;
    advance_iovecs(&mut iovs, &mut idx, 14);
    assert_eq!(idx, 1);
    assert_eq!((iovs[1].off, iovs[1].len), (104, 6));
}

#[test]
fn refused_cache_hint_is_dropped_and_retried() {
    let mut be = open(1 << 20, 0, false);
    be.dontcache = true;
    let mut t = be.rwv(true, 0, vec![Seg { off: 0, len: 4096 }], 4096).unwrap();
    assert!(matches!(be.rwv_next(&t), RwStep::Issue { dontcache: true, .. }));
    let s = be.rwv_result(&mut t, OpResult::Failed { errno: EOPNOTSUPP });
    assert!(matches!(s, RwStep::Issue { dontcache: false, .. }));
    assert!(!be.dontcache);
    // No progress is an error.
    let s = be.rwv_result(&mut t, OpResult::Done { n: 0 });
    assert_eq!(s, RwStep::Failed { error: BackendError::Io(EIO) });
}

#[test]
fn configured_backends_are_planned() {
    assert_eq!(
        plan_backend(&BackendConfig::Memory { size_mb: 8 }),
        BackendPlan::Memory { bytes: 8 << 20 }
    );
    assert_eq!(
        plan_backend(&BackendConfig::Null { size_mb: 1 }),
        BackendPlan::Null { bytes: 1 << 20 }
    );
    assert_eq!(
        plan_backend(&BackendConfig::File { path: "/x".into() }),
        BackendPlan::File
    );
}
