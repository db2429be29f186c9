use bump_alloc::bump::BumpBlock;
use bump_alloc::meta::BlockMeta;
use bump_alloc::{BLOCK_SIZE, LINE_SIZE, WORD_SIZE};

fn fresh() -> BumpBlock {
    match BumpBlock::new() {
        Ok(b) => b,
        Err(_) => panic!("block creation failed"),
    }
}

#[test]
fn concrete_scenario_small_then_oversized() {
    let mut b = fresh();
    let start = b.start();
    let end = start + BLOCK_SIZE;
    assert_eq!(b.limit(), start);
    assert_eq!(b.cursor(), end);

    let first = b.inner_alloc(24).expect("fits in a fresh block");
    assert_eq!(first, end - 24);
    assert_eq!(b.cursor(), end - 24);

    assert_eq!(b.inner_alloc(40000), None);
    assert_eq!(b.cursor(), end - 24);
}

#[test]
fn addresses_descend_without_overlap() {
    let mut b = fresh();
    let sizes = [8usize, 16, 24, 8, 128, 4096, 8];
    let mut prev: Option<usize> = None;
    for k in sizes {
        let addr = b.inner_alloc(k).expect("fits in a fresh block");
        if let Some(prev_addr) = prev {
            assert!(addr + k <= prev_addr);
            assert!(addr < prev_addr);
        }
        prev = Some(addr);
    }
}

#[test]
fn failing_call_leaves_state_unchanged() {
    let mut b = fresh();
    b.inner_alloc(24).expect("fits in a fresh block");
    let cursor = b.cursor();
    let limit = b.limit();
    assert_eq!(b.inner_alloc(BLOCK_SIZE), None);
    assert_eq!(b.cursor(), cursor);
    assert_eq!(b.limit(), limit);
}

#[test]
fn unaligned_requests_give_word_aligned_addresses() {
    let mut b = fresh();
    for k in [1usize, 3, 7, 13, 25, 1001] {
        let addr = b.inner_alloc(k).expect("fits in a fresh block");
        assert_eq!(addr % WORD_SIZE, 0);
    }
}

#[test]
fn recycle_protects_live_lines() {
    let mut b = fresh();
    let start = b.start();
    let mut meta = BlockMeta::new();
    meta.set_line(10, true);
    b.recycle(meta);

    let live_end = start + 11 * LINE_SIZE;
    assert_eq!(b.limit(), live_end);
    assert_eq!(b.cursor(), start + BLOCK_SIZE);

    let mut served = 0usize;
    loop {
        match b.inner_alloc(64) {
            Some(addr) => {
                assert!(addr >= live_end);
                served += 1;
            }
            None => break,
        }
    }
    assert_eq!(served, (BLOCK_SIZE - 11 * LINE_SIZE) / 64);
}

#[test]
fn recycle_with_clean_meta_resets_the_whole_block() {
    let mut b = fresh();
    let start = b.start();
    b.inner_alloc(4096).expect("fits in a fresh block");
    b.recycle(BlockMeta::new());
    assert_eq!(b.limit(), start);
    assert_eq!(b.cursor(), start + BLOCK_SIZE);
}

#[test]
fn whole_block_allocation_then_exhaustion() {
    let mut b = fresh();
    let start = b.start();
    assert_eq!(b.inner_alloc(BLOCK_SIZE), Some(start));
    assert_eq!(b.inner_alloc(8), None);
    assert_eq!(b.cursor(), start);
}

#[test]
fn zero_sized_request_reuses_the_cursor() {
    let mut b = fresh();
    let end = b.start() + BLOCK_SIZE;
    assert_eq!(b.inner_alloc(0), Some(end));
    assert_eq!(b.cursor(), end);
}
