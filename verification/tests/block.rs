use bump_alloc::block::{Block, BlockError};

#[test]
fn power_of_two_sizes_give_aligned_blocks() {
    for size in [8usize, 64, 1024, 32768] {
        let block = match Block::new(size) {
            Ok(b) => b,
            Err(_) => panic!("creation failed for size {}", size),
        };
        assert_eq!(block.size(), size);
        assert_eq!(block.as_ptr() % size, 0);
        Block::dealloc_block(block);
    }
}

#[test]
fn non_power_of_two_is_bad_request() {
    for size in [0usize, 3, 12, 100, 6000, 32767] {
        match Block::new(size) {
            Err(BlockError::BadRequest) => {}
            _ => panic!("expected BadRequest for size {}", size),
        }
    }
}

#[test]
fn alloc_block_is_self_aligned() {
    let block = match Block::alloc_block(4096) {
        Ok(b) => b,
        Err(_) => panic!("allocation failed"),
    };
    assert_eq!(block.as_ptr() % 4096, 0);
    assert_eq!(block.size(), 4096);
}

#[test]
fn error_variants_compare() {
    assert_eq!(BlockError::BadRequest, BlockError::BadRequest);
    assert_ne!(BlockError::BadRequest, BlockError::OOM);
}

#[test]
fn smallest_block_is_one_byte() {
    let block = match Block::new(1) {
        Ok(b) => b,
        Err(_) => panic!("creation failed"),
    };
    assert_eq!(block.size(), 1);
    Block::dealloc_block(block);
}
