use vstd::prelude::*;
use crate::framing::{decode_length, le_bytes, le_value, lemma_le_round_trip, lemma_pow256_8, HEADER_LEN};

verus! {

/// How many bytes of `s` equal `c`.
pub open spec fn occurrences(s: Seq<u8>, c: u8) -> nat
    decreases s.len(),
{
    if s.len() == 0 {
        0
    } else {
        occurrences(s.drop_last(), c) + if s.last() == c {
            1nat
        } else {
            0nat
        }
    }
}

pub proof fn lemma_occurrences_bound(s: Seq<u8>, c: u8)
    ensures
        occurrences(s, c) <= s.len(),
    decreases s.len(),
{
    if s.len() > 0 {
        lemma_occurrences_bound(s.drop_last(), c);
    }
}

/// Counts the bytes of `buf` equal to `symbol`.
pub fn count_occurrences(buf: &[u8], symbol: u8) -> (r: u64)
    ensures
        r == occurrences(buf@, symbol),
{
    let mut n: usize = 0;
    let mut i: usize = 0;
    while i < buf.len()
        invariant
            i <= buf@.len(),
            n == occurrences(buf@.subrange(0, i as int), symbol),
        decreases buf@.len() - i,
    {
        proof {
            assert(buf@.subrange(0, i + 1).drop_last() =~= buf@.subrange(0, i as int));
            lemma_occurrences_bound(buf@.subrange(0, i as int), symbol);
        }
        if buf[i] == symbol {
            n = n + 1;
        }
        i = i + 1;
    }
    assert(buf@.subrange(0, i as int) =~= buf@);
    n as u64
}

/// The input of one counting task: the byte to look for, then the block.
pub open spec fn task_input(symbol: u8, block: Seq<u8>) -> Seq<u8> {
    seq![symbol] + block
}

/// Builds the input of one counting task.
pub fn task_payload(symbol: u8, block: &[u8]) -> (r: Vec<u8>)
    ensures
        r@ == task_input(symbol, block@),
{
    let mut r: Vec<u8> = Vec::new();
    r.push(symbol);
    let mut i: usize = 0;
    while i < block.len()
        invariant
            i <= block@.len(),
            r@ == seq![symbol] + block@.subrange(0, i as int),
        decreases block@.len() - i,
    {
        r.push(block[i]);
        i = i + 1;
        assert(r@ =~= seq![symbol] + block@.subrange(0, i as int));
    }
    assert(block@.subrange(0, i as int) =~= block@);
    r
}

/// How a file is cut into blocks: `count` blocks, all of `block_size` bytes
/// but the last, which takes what is left.
pub struct BlockPlan {
    pub count: u64,
    pub block_size: u64,
    pub last_block_size: u64,
}

/// Why a file cannot be cut into blocks.
#[derive(Clone, Copy, Debug, PartialEq, Eq, Structural)]
pub enum PlanError {
    /// The file holds fewer than two bytes.
    TooSmall,
    /// No block was asked for.
    NoBlocks,
}

/// The number of blocks used: as many as asked for, but no more than half the
/// file's size.
pub open spec fn block_count(file_size: nat, requested: nat) -> nat {
    if requested > file_size / 2 {
        file_size / 2
    } else {
        requested
    }
}

/// Cuts a file of `file_size` bytes into `requested` blocks, or into half as
/// many blocks as it has bytes when fewer are possible. Every block but the
/// last has `file_size / count` bytes; the last takes the rest.
pub fn plan_blocks(file_size: u64, requested: u64) -> (r: Result<BlockPlan, PlanError>)
    ensures
        file_size < 2 ==> r == Err::<BlockPlan, PlanError>(PlanError::TooSmall),
        file_size >= 2 && requested == 0 ==> r == Err::<BlockPlan, PlanError>(PlanError::NoBlocks),
        file_size >= 2 && requested > 0 ==> (r matches Ok(p) && {
            &&& p.count == block_count(file_size as nat, requested as nat)
            &&& p.block_size == file_size / p.count
            &&& p.last_block_size == file_size - p.block_size * (p.count - 1)
        }),
        r matches Ok(p) ==> (p.count >= 1 && p.block_size >= 1 && p.last_block_size >= p.block_size
            && p.block_size * (p.count - 1) + p.last_block_size == file_size),
{
    if file_size < 2 {
        return Err(PlanError::TooSmall);
    }
    if requested == 0 {
        return Err(PlanError::NoBlocks);
    }
    let half = file_size / 2;
    let count = if requested > half {
        half
    } else {
        requested
    };
    let block_size = file_size / count;
    proof {
        assert(block_size * count <= file_size) by (nonlinear_arith)
            requires
                block_size == file_size / count,
                count >= 1,
        ;
        assert(block_size * (count - 1) <= block_size * count) by (nonlinear_arith)
            requires
                count >= 1,
        ;
        assert(block_size >= 1) by (nonlinear_arith)
            requires
                block_size == file_size / count,
                count >= 1,
                count <= file_size,
        ;
        assert(block_size * (count - 1) + block_size == block_size * count) by (nonlinear_arith);
    }
    let last_block_size = file_size - block_size * (count - 1);
    Ok(BlockPlan { count, block_size, last_block_size })
}

/// The sum of the numbers that the byte strings of `results` encode.
pub open spec fn total(results: Seq<Seq<u8>>) -> nat
    decreases results.len(),
{
    if results.len() == 0 {
        0
    } else {
        total(results.drop_last()) + le_value(results.last())
    }
}

/// Whether every result is one 8-byte number.
pub open spec fn all_counts(results: Seq<Seq<u8>>) -> bool {
    forall|i: int| 0 <= i < results.len() ==> (#[trigger] results[i]).len() == 8
}

/// The views of the byte strings in `v`.
pub open spec fn views(v: Seq<Vec<u8>>) -> Seq<Seq<u8>> {
    v.map_values(|b: Vec<u8>| b@)
}

/// Adds up counting results, each an 8-byte little-endian number. `None` when
/// a result is not 8 bytes long, or when the sum does not fit in 64 bits.
pub fn sum_counts(results: &Vec<Vec<u8>>) -> (r: Option<u64>)
    ensures
        r matches Some(n) ==> all_counts(views(results@)) && n == total(views(results@)),
        r is None ==> !all_counts(views(results@)) || total(views(results@)) > u64::MAX,
{
    let ghost all = views(results@);
    let mut sum: u64 = 0;
    let mut i: usize = 0;
    while i < results.len()
        invariant
            all == views(results@),
            i <= results@.len(),
            all_counts(all.subrange(0, i as int)),
            sum == total(all.subrange(0, i as int)),
        decreases results@.len() - i,
    {
        let ghost pre = all.subrange(0, i as int);
        proof {
            assert(all.subrange(0, i + 1).drop_last() =~= pre);
        }
        if results[i].len() != HEADER_LEN {
            assert(!all_counts(all)) by {
                assert(all[i as int].len() != 8);
            }
            return None;
        }
        let v = decode_length(results[i].as_slice());
        if v > u64::MAX - sum {
            proof {
                lemma_total_prefix(all, i as int + 1);
            }
            return None;
        }
        sum = sum + v;
        i = i + 1;
    }
    assert(all.subrange(0, i as int) =~= all);
    Some(sum)
}

/// The total of a prefix never exceeds the total of the whole.
pub proof fn lemma_total_prefix(s: Seq<Seq<u8>>, k: int)
    requires
        0 <= k <= s.len(),
    ensures
        total(s.subrange(0, k)) <= total(s),
    decreases s.len(),
{
    if k < s.len() {
        assert(s.drop_last().subrange(0, k) =~= s.subrange(0, k));
        lemma_total_prefix(s.drop_last(), k);
    } else {
        assert(s.subrange(0, k) =~= s);
    }
}

/// Counting over two pieces adds up to counting over the whole.
pub proof fn lemma_occurrences_concat(a: Seq<u8>, b: Seq<u8>, c: u8)
    ensures
        occurrences(a + b, c) == occurrences(a, c) + occurrences(b, c),
    decreases b.len(),
{
    if b.len() == 0 {
        assert(a + b =~= a);
    } else {
        assert((a + b).drop_last() =~= a + b.drop_last());
        lemma_occurrences_concat(a, b.drop_last(), c);
    }
}

/// The blocks of `blocks` put back together, in order.
pub open spec fn joined(blocks: Seq<Seq<u8>>) -> Seq<u8>
    decreases blocks.len(),
{
    if blocks.len() == 0 {
        Seq::empty()
    } else {
        joined(blocks.drop_last()) + blocks.last()
    }
}

/// Counting a file block by block: when each result is the 8-byte count of
/// `c` in its block, the results add up to the count of `c` in the whole file.
pub proof fn lemma_block_counts_add_up(blocks: Seq<Seq<u8>>, results: Seq<Seq<u8>>, c: u8)
    requires
        results.len() == blocks.len(),
        forall|i: int| 0 <= i < blocks.len() ==> (#[trigger] blocks[i]).len() < 0x1_0000_0000_0000_0000,
        forall|i: int| 0 <= i < blocks.len() ==> #[trigger] results[i] == le_bytes(occurrences(blocks[i], c), 8),
    ensures
        total(results) == occurrences(joined(blocks), c),
    decreases blocks.len(),
{
    if blocks.len() > 0 {
        let n = blocks.len() - 1;
        let b0 = blocks.drop_last();
        let r0 = results.drop_last();
        assert forall|i: int| 0 <= i < b0.len() implies (#[trigger] b0[i]).len() < 0x1_0000_0000_0000_0000 by {
            assert(b0[i] == blocks[i]);
        }
        assert forall|i: int| 0 <= i < b0.len() implies #[trigger] r0[i] == le_bytes(occurrences(b0[i], c), 8) by {
            assert(b0[i] == blocks[i]);
            assert(r0[i] == results[i]);
        }
        lemma_block_counts_add_up(b0, r0, c);
        lemma_occurrences_concat(joined(b0), blocks[n], c);
        lemma_occurrences_bound(blocks[n], c);
        lemma_pow256_8();
        lemma_le_round_trip(occurrences(blocks[n], c), 8);
        assert(results.last() == results[n]);
    }
}

} // verus!
