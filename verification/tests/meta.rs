use bump_alloc::meta::BlockMeta;
use bump_alloc::LINE_COUNT;

#[test]
fn fresh_meta_is_all_free() {
    let meta = BlockMeta::new();
    for i in 0..LINE_COUNT {
        assert!(!meta.is_marked(i));
    }
    assert_eq!(meta.find_limit(0), 0);
}

#[test]
fn find_limit_sits_after_the_last_marked_line() {
    let mut meta = BlockMeta::new();
    meta.set_line(5, true);
    meta.set_line(40, true);
    assert!(meta.is_marked(5));
    assert!(meta.is_marked(40));
    assert!(!meta.is_marked(41));
    assert_eq!(meta.find_limit(0), 41);

    meta.set_line(40, false);
    assert_eq!(meta.find_limit(0), 6);
}

#[test]
fn find_limit_respects_its_lower_bound() {
    let mut meta = BlockMeta::new();
    meta.set_line(2, true);
    assert_eq!(meta.find_limit(0), 3);
    assert_eq!(meta.find_limit(10), 10);
    assert_eq!(meta.find_limit(3), 3);
}

#[test]
fn marked_last_line_leaves_no_free_tail() {
    let mut meta = BlockMeta::new();
    meta.set_line(LINE_COUNT - 1, true);
    assert_eq!(meta.find_limit(0), LINE_COUNT);
}
