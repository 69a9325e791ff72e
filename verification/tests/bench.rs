use hpc::bench::{block_offset, fill_block, BenchOptions, RawOptions};
use hpc::error::HpcError;
use hpc::types::IoPattern;

#[test]
fn lib_rejects_zero_block_size() {
    let opts = BenchOptions {
        block_size: 0,
        ..Default::default()
    };
    assert!(opts.validate().is_err());
}

#[test]
fn ffi_raw_rejects_zero_block_size() {
    let opts = RawOptions {
        block_size: 0,
        ..Default::default()
    };
    assert!(opts.validate().is_err());
}

// ---------------------------------------------------------------------------

#[test]
fn default_options_are_valid_and_cover_all_patterns() {
    let o = BenchOptions::default();
    assert_eq!(o.path, ".");
    assert_eq!(o.block_size, 4096);
    assert_eq!(o.file_size, 64 * 1024 * 1024);
    assert_eq!(
        o.patterns,
        vec![IoPattern::SequentialWrite, IoPattern::SequentialRead, IoPattern::RandomWrite, IoPattern::RandomRead]
    );
    assert!(!o.fsync);
    assert!(o.validate().is_ok());
    assert_eq!(o.blocks(), 16384);
    let r = RawOptions::default();
    assert_eq!(r.file_size, 16 * 1024 * 1024);
    assert!(r.validate().is_ok());
    assert_eq!(r.blocks(), 4096);
}

#[test]
fn file_smaller_than_block_is_rejected() {
    let o = BenchOptions { block_size: 4096, file_size: 100, ..Default::default() };
    match o.validate() {
        Err(HpcError::Bench(m)) => assert_eq!(m, "file_size must be at least block_size"),
        other => panic!("unexpected {other:?}"),
    }
    let z = BenchOptions { block_size: 0, ..Default::default() };
    match z.validate() {
        Err(HpcError::Bench(m)) => assert_eq!(m, "block_size must be non-zero"),
        other => panic!("unexpected {other:?}"),
    }
}

#[test]
fn partial_trailing_block_is_not_counted() {
    let o = BenchOptions { block_size: 4096, file_size: 4096 * 3 + 100, ..Default::default() };
    assert_eq!(o.blocks(), 3);
}

#[test]
fn fill_block_cycles_through_251() {
    let b = fill_block(600);
    assert_eq!(b.len(), 600);
    assert_eq!(b[0], 0);
    assert_eq!(b[250], 250);
    assert_eq!(b[251], 0);
    assert_eq!(b[599], (599 % 251) as u8);
}

#[test]
fn sequential_offsets_follow_the_index_and_random_ones_stay_aligned() {
    assert_eq!(block_offset(5, 10, false, 4096), 5 * 4096);
    for i in 0..100 {
        let off = block_offset(i % 10, 10, true, 4096);
        assert_eq!(off % 4096, 0);
        assert!(off < 10 * 4096);
    }
}

#[test]
fn pattern_labels() {
    assert_eq!(IoPattern::SequentialRead.label(), "sequential_read");
    assert_eq!(IoPattern::RandomWrite.label(), "random_write");
}
