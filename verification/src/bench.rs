//! Benchmark planning: option validation, the block layout of the scratch
//! file, the write pattern, and where each operation lands.
use rand::Rng;
use vstd::prelude::*;

use crate::error::HpcError;
use crate::types::IoPattern;

verus! {

/// The name of a pattern as reports print it.
pub open spec fn pattern_label(p: IoPattern) -> Seq<char> {
    match p {
        IoPattern::SequentialRead => "sequential_read"@,
        IoPattern::SequentialWrite => "sequential_write"@,
        IoPattern::RandomRead => "random_read"@,
        IoPattern::RandomWrite => "random_write"@,
    }
}

impl IoPattern {
    /// The name of the pattern, e.g. `sequential_read`.
    pub fn label(&self) -> (s: &'static str)
        ensures
            s@ == pattern_label(*self),
    {
        match self {
            IoPattern::SequentialRead => "sequential_read",
            IoPattern::SequentialWrite => "sequential_write",
            IoPattern::RandomRead => "random_read",
            IoPattern::RandomWrite => "random_write",
        }
    }
}

/// Parameters for a benchmark run.
#[derive(Debug, Clone)]
pub struct BenchOptions {
    /// Directory to create the scratch file in.
    pub path: String,
    /// I/O block size in bytes.
    pub block_size: u64,
    /// Backing file size in bytes.
    pub file_size: u64,
    /// Which access patterns to run.
    pub patterns: Vec<IoPattern>,
    /// Whether to `fsync` after each write op (durable-write latency).
    pub fsync: bool,
}

impl Default for BenchOptions {
    /// The current directory, 4 KiB blocks over a 64 MiB file, all four
    /// patterns (sequential write, sequential read, random write, random
    /// read), no fsync.
    fn default() -> (o: BenchOptions)
        ensures
            o.path@ == "."@,
            o.block_size == 4096,
            o.file_size == 64 * 1024 * 1024,
            o.patterns@ == seq![
                IoPattern::SequentialWrite,
                IoPattern::SequentialRead,
                IoPattern::RandomWrite,
                IoPattern::RandomRead,
            ],
            !o.fsync,
    {
        let mut patterns: Vec<IoPattern> = Vec::new();
        patterns.push(IoPattern::SequentialWrite);
        patterns.push(IoPattern::SequentialRead);
        patterns.push(IoPattern::RandomWrite);
        patterns.push(IoPattern::RandomRead);
        proof {
            assert(patterns@ =~= seq![
                IoPattern::SequentialWrite,
                IoPattern::SequentialRead,
                IoPattern::RandomWrite,
                IoPattern::RandomRead,
            ]);
        }
        BenchOptions {
            path: ".".to_owned(),
            block_size: 4096,
            file_size: 64 * 1024 * 1024,
            patterns,
            fsync: false,
        }
    }
}

/// The verdict on a block size and file size: the block size must be
/// non-zero, and the file must hold at least one block.
pub open spec fn size_check(block_size: u64, file_size: u64) -> Result<(), Seq<char>> {
    if block_size == 0 {
        Err("block_size must be non-zero"@)
    } else if file_size < block_size {
        Err("file_size must be at least block_size"@)
    } else {
        Ok(())
    }
}

/// Whether `r` is the error that `size_check` describes.
pub open spec fn is_size_verdict(r: Result<(), HpcError>, block_size: u64, file_size: u64) -> bool {
    match size_check(block_size, file_size) {
        Ok(()) => r is Ok,
        Err(m) => r matches Err(HpcError::Bench(e)) && e@ == m,
    }
}

/// Whole blocks in the backing file, at least one.
pub open spec fn block_count(block_size: u64, file_size: u64) -> u64 {
    if file_size / block_size >= 1 {
        (file_size / block_size) as u64
    } else {
        1
    }
}

fn check_sizes(block_size: u64, file_size: u64) -> (r: Result<(), HpcError>)
    ensures
        is_size_verdict(r, block_size, file_size),
{
    if block_size == 0 {
        return Err(HpcError::Bench("block_size must be non-zero".to_owned()));
    }
    if file_size < block_size {
        return Err(HpcError::Bench("file_size must be at least block_size".to_owned()));
    }
    Ok(())
}

impl BenchOptions {
    /// Reject a zero block size, and a file smaller than one block.
    pub fn validate(&self) -> (r: Result<(), HpcError>)
        ensures
            is_size_verdict(r, self.block_size, self.file_size),
    {
        check_sizes(self.block_size, self.file_size)
    }

    /// Number of whole blocks that fit in the backing file (at least one).
    pub fn blocks(&self) -> (n: u64)
        requires
            self.block_size > 0,
        ensures
            n == block_count(self.block_size, self.file_size),
    {
        let n = self.file_size / self.block_size;
        if n >= 1 {
            n
        } else {
            1
        }
    }
}

/// Parameters for a raw block-I/O benchmark run.
#[derive(Debug, Clone)]
pub struct RawOptions {
    /// Directory to create the scratch file in.
    pub path: String,
    /// I/O block size in bytes.
    pub block_size: u64,
    /// Backing file size in bytes.
    pub file_size: u64,
    /// Whether to `fsync` after each write (durable-write latency).
    pub fsync: bool,
}

impl Default for RawOptions {
    /// The current directory, 4 KiB blocks over a 16 MiB file, no fsync.
    fn default() -> (o: RawOptions)
        ensures
            o.path@ == "."@,
            o.block_size == 4096,
            o.file_size == 16 * 1024 * 1024,
            !o.fsync,
    {
        RawOptions { path: ".".to_owned(), block_size: 4096, file_size: 16 * 1024 * 1024, fsync: false }
    }
}

impl RawOptions {
    /// Reject a zero block size, and a file smaller than one block.
    pub fn validate(&self) -> (r: Result<(), HpcError>)
        ensures
            is_size_verdict(r, self.block_size, self.file_size),
    {
        check_sizes(self.block_size, self.file_size)
    }

    /// Number of whole blocks that fit in the backing file (at least one).
    pub fn blocks(&self) -> (n: u64)
        requires
            self.block_size > 0,
        ensures
            n == block_count(self.block_size, self.file_size),
    {
        let n = self.file_size / self.block_size;
        if n >= 1 {
            n
        } else {
            1
        }
    }
}

/// The byte pattern written by the benchmarks: byte `i` is `i % 251`, a
/// fixed non-zero pattern that defeats sparse-file optimisations.
pub fn fill_block(size: usize) -> (v: Vec<u8>)
    ensures
        v@.len() == size,
        forall|i: int| 0 <= i < size ==> v@[i] == i % 251,
{
    let mut v: Vec<u8> = Vec::new();
    let mut i: usize = 0;
    while i < size
        invariant
            i <= size,
            v@.len() == i,
            forall|j: int| 0 <= j < i ==> v@[j] == j % 251,
        decreases size - i,
    {
        v.push((i % 251) as u8);
        i = i + 1;
    }
    v
}

/// A uniformly random index below `upper`
/// (`rand::Rng::random_range(0..upper)` on the thread-local generator).
/// Only the range of the result is promised; the range is non-empty, as the
/// call requires.
#[verifier::external_body]
fn random_below(upper: u64) -> (r: u64)
    requires
        upper > 0,
    ensures
        r < upper,
{
    rand::rng().random_range(0..upper)
}

/// The first byte of block `k`.
pub open spec fn block_start(k: u64, block_size: u64) -> int {
    k * block_size
}

/// The byte offset of operation `i` of a run over `blocks` blocks: block `i`
/// for a sequential pattern, a uniformly random block for a random one.
pub fn block_offset(i: u64, blocks: u64, random: bool, block_size: u64) -> (offset: u64)
    requires
        i < blocks,
        blocks * block_size <= u64::MAX,
    ensures
        exists|k: u64|
            k < blocks && offset == #[trigger] block_start(k, block_size) && (!random ==> k == i),
{
    let index = if random {
        random_below(blocks)
    } else {
        i
    };
    proof {
        assert(index * block_size <= blocks * block_size) by (nonlinear_arith)
            requires
                index < blocks,
        ;
    }
    let offset = index * block_size;
    proof {
        assert(offset == block_start(index, block_size));
    }
    offset
}

/// Every operation of a validated run stays inside the backing file: the
/// block at any index below the block count ends at or before the file's end.
pub proof fn operations_fit_in_file(block_size: u64, file_size: u64, k: u64)
    requires
        size_check(block_size, file_size) is Ok,
        k < block_count(block_size, file_size),
    ensures
        k * block_size + block_size <= file_size,
        block_count(block_size, file_size) * block_size <= file_size,
{
    let q = file_size / block_size;
    assert(q >= 1) by (nonlinear_arith)
        requires
            block_size > 0,
            file_size >= block_size,
            q == file_size / block_size,
    ;
    assert(q * block_size <= file_size) by (nonlinear_arith)
        requires
            block_size > 0,
            q == file_size / block_size,
    ;
    assert(k * block_size + block_size <= q * block_size) by (nonlinear_arith)
        requires
            k < q,
            block_size > 0,
    ;
}

} // verus!
