//! A pool of memory blocks that is grown or shrunk towards a target number of
//! mebibytes.
use vstd::prelude::*;
use vstd::arithmetic::div_mod::*;

verus! {

/// Bytes in a mebibyte.
pub const MIB: usize = 1048576;

/// Length of the byte pattern that fills new blocks.
pub const FILL_PATTERN_LEN: usize = 1048576;

/// Block size, in MiB, for a shortfall below 256 MiB.
pub const SMALL_BLOCK_MB: usize = 64;

/// Block size, in MiB, for a shortfall from 256 MiB to below 1024 MiB.
pub const MEDIUM_BLOCK_MB: usize = 128;

/// Block size, in MiB, for a shortfall of 1024 MiB or more.
pub const LARGE_BLOCK_MB: usize = 256;

/// Memory, in MiB, always left to the system.
pub const MIN_SYSTEM_RESERVE_MB: usize = 1024;

/// While blocks are added, progress is reported every this many blocks.
pub const BATCH_PROGRESS_INTERVAL: usize = 5;

/// While blocks are added, the work pauses after every this many blocks.
pub const BATCH_PAUSE_INTERVAL: usize = 10;

/// Length of that pause, in milliseconds.
pub const BATCH_PAUSE_DURATION_MS: u64 = 100;

/// Seconds between two adjustments of the memory held.
pub const MEMORY_CHECK_INTERVAL_SECS: u64 = 60;

/// Seconds between two touches of the blocks held.
pub const MEMORY_KEEP_ALIVE_INTERVAL_SECS: u64 = 10;

/// Number of bytes in a list of blocks.
pub open spec fn total_bytes(blocks: Seq<Seq<u8>>) -> nat
    decreases blocks.len(),
{
    if blocks.len() == 0 {
        0
    } else {
        total_bytes(blocks.drop_last()) + blocks.last().len()
    }
}

/// Number of whole MiB in a list of blocks.
pub open spec fn megabytes(blocks: Seq<Seq<u8>>) -> nat {
    total_bytes(blocks) / (MIB as nat)
}

/// Byte `k` of the fill pattern.
pub open spec fn pattern_byte(k: int) -> u8 {
    (k % 256) as u8
}

/// Byte `k` of a new block: the fill pattern, raised by one (wrapping) in the first
/// 1000 bytes of each MiB.
pub open spec fn block_byte(k: int) -> u8 {
    if k % (MIB as int) < 1000 {
        ((k % 256 + 1) % 256) as u8
    } else {
        pattern_byte(k)
    }
}

/// The bytes of a new block of `size_mb` MiB.
pub open spec fn block_content(size_mb: nat) -> Seq<u8> {
    Seq::new(size_mb * (MIB as nat), |k: int| block_byte(k))
}

/// The block size, in MiB, used to cover a shortfall of `additional_mb` MiB.
pub open spec fn block_size_for(additional_mb: nat) -> nat {
    if additional_mb < 256 {
        SMALL_BLOCK_MB as nat
    } else if additional_mb < 1024 {
        MEDIUM_BLOCK_MB as nat
    } else {
        LARGE_BLOCK_MB as nat
    }
}

/// Number of blocks of `size_mb` MiB that cover `additional_mb` MiB: the quotient
/// rounded up.
pub open spec fn blocks_to_cover(additional_mb: nat, size_mb: nat) -> nat {
    ((additional_mb + size_mb - 1) as nat) / size_mb
}

/// The memory, in MiB, that a target may use at most: the total memory less the
/// reserve of the system, or none where the total is below the reserve.
pub open spec fn usable_limit(system_total_mb: u64) -> nat {
    let total = system_total_mb as usize;
    if total >= MIN_SYSTEM_RESERVE_MB {
        (total - MIN_SYSTEM_RESERVE_MB) as nat
    } else {
        0
    }
}

/// A target of `safe_mb` MiB once the reserve of the system is kept free: the
/// smaller of the target and the usable limit.
pub open spec fn usable_target(safe_mb: nat, system_total_mb: u64) -> nat {
    if safe_mb < usable_limit(system_total_mb) {
        safe_mb
    } else {
        usable_limit(system_total_mb)
    }
}

/// A block after a touch that keeps it in use: its first byte raised by one,
/// wrapping; an empty block stays empty.
pub open spec fn touched(block: Seq<u8>) -> Seq<u8> {
    if block.len() > 0 {
        block.update(0, ((block[0] + 1) % 256) as u8)
    } else {
        block
    }
}

/// How to grow the pool: `blocks_needed` blocks of `block_size_mb` MiB each.
#[derive(Clone, Copy, Debug, PartialEq, Eq, Structural)]
pub struct AllocationPlan {
    pub block_size_mb: usize,
    pub blocks_needed: usize,
}

/// What to do with the memory held to meet a target.
#[derive(Clone, Copy, Debug, PartialEq, Eq, Structural)]
pub enum MemoryAdjustment {
    /// Drop blocks, last first, down to the target.
    Release,
    /// Add the blocks of the plan.
    Allocate(AllocationPlan),
    /// The target is met already.
    Keep,
}

/// What the caller does after a block has been added: report progress, and pause.
#[derive(Clone, Copy, Debug, PartialEq, Eq, Structural)]
pub struct BatchNotice {
    pub report_progress: bool,
    pub pause_after: bool,
}

/// The blocks of memory held, the total memory of the system in MiB, and the byte
/// pattern that fills new blocks.
pub struct MemoryPool {
    blocks: Vec<Vec<u8>>,
    system_total_mb: u64,
    fill_pattern: Vec<u8>,
}

pub proof fn lemma_total_bytes_push(blocks: Seq<Seq<u8>>, b: Seq<u8>)
    ensures
        total_bytes(blocks.push(b)) == total_bytes(blocks) + b.len(),
{
    assert(blocks.push(b).drop_last() =~= blocks);
}

pub proof fn lemma_total_bytes_take(blocks: Seq<Seq<u8>>, i: int)
    requires
        0 <= i < blocks.len(),
    ensures
        total_bytes(blocks.take(i + 1)) == total_bytes(blocks.take(i)) + blocks[i].len(),
{
    assert(blocks.take(i + 1).drop_last() =~= blocks.take(i));
}

pub proof fn lemma_total_bytes_prefix(blocks: Seq<Seq<u8>>, i: int)
    requires
        0 <= i <= blocks.len(),
    ensures
        total_bytes(blocks.take(i)) <= total_bytes(blocks),
    decreases blocks.len() - i,
{
    if i < blocks.len() {
        assert(blocks.drop_last().take(i) =~= blocks.take(i));
        lemma_total_bytes_prefix(blocks.drop_last(), i);
    } else {
        assert(blocks.take(i) =~= blocks);
    }
}

/// Blocks of whole MiB make a whole number of MiB.
pub proof fn lemma_whole_mib(blocks: Seq<Seq<u8>>)
    requires
        forall|i: int| 0 <= i < blocks.len() ==> #[trigger] blocks[i].len() % (MIB as nat) == 0,
    ensures
        total_bytes(blocks) % (MIB as nat) == 0,
    decreases blocks.len(),
{
    if blocks.len() > 0 {
        let rest = blocks.drop_last();
        assert forall|i: int| 0 <= i < rest.len() implies #[trigger] rest[i].len() % (MIB as nat)
            == 0 by {
            assert(rest[i] == blocks[i]);
        }
        lemma_whole_mib(rest);
        assert(blocks[blocks.len() - 1].len() % (MIB as nat) == 0);
        lemma_mod_adds(total_bytes(rest) as int, blocks.last().len() as int, MIB as int);
    }
}

/// Lists whose blocks have the same lengths hold the same number of bytes.
pub proof fn lemma_total_bytes_same_lengths(a: Seq<Seq<u8>>, b: Seq<Seq<u8>>)
    requires
        a.len() == b.len(),
        forall|i: int| 0 <= i < a.len() ==> #[trigger] a[i].len() == b[i].len(),
    ensures
        total_bytes(a) == total_bytes(b),
    decreases a.len(),
{
    if a.len() > 0 {
        let (ra, rb) = (a.drop_last(), b.drop_last());
        assert forall|i: int| 0 <= i < ra.len() implies #[trigger] ra[i].len() == rb[i].len() by {
            assert(ra[i] == a[i] && rb[i] == b[i]);
        }
        lemma_total_bytes_same_lengths(ra, rb);
        assert(a[a.len() - 1].len() == b[b.len() - 1].len());
    }
}

/// Adding a block of `size_mb` MiB to blocks of whole MiB adds `size_mb` MiB.
pub proof fn lemma_megabytes_push(blocks: Seq<Seq<u8>>, size_mb: nat)
    requires
        total_bytes(blocks) % (MIB as nat) == 0,
    ensures
        megabytes(blocks.push(block_content(size_mb))) == megabytes(blocks) + size_mb,
{
    lemma_total_bytes_push(blocks, block_content(size_mb));
    let t = total_bytes(blocks) as int;
    let m = MIB as int;
    lemma_fundamental_div_mod(t, m);
    let q = t / m;
    assert(t + size_mb * m == m * (q + size_mb)) by (nonlinear_arith)
        requires
            t == m * q,
    ;
    lemma_div_multiples_vanish(q + size_mb, m);
}

/// The bytes of each block of a list.
pub open spec fn block_views(blocks: Seq<Vec<u8>>) -> Seq<Seq<u8>> {
    blocks.map_values(|b: Vec<u8>| b@)
}

/// Number of bytes in the blocks of a list.
fn held_bytes_of(blocks: &Vec<Vec<u8>>) -> (r: usize)
    requires
        total_bytes(block_views(blocks@)) <= usize::MAX,
    ensures
        r == total_bytes(block_views(blocks@)),
{
    let ghost views = block_views(blocks@);
    let n = blocks.len();
    let mut sum: usize = 0;
    let mut i: usize = 0;
    while i < n
        invariant
            n == blocks@.len(),
            views == block_views(blocks@),
            i <= n,
            sum == total_bytes(views.take(i as int)),
            total_bytes(views) <= usize::MAX,
        decreases n - i,
    {
        proof {
            lemma_total_bytes_take(views, i as int);
            lemma_total_bytes_prefix(views, i + 1);
        }
        sum = sum + blocks[i].len();
        i = i + 1;
    }
    assert(views.take(n as int) =~= views);
    sum
}

impl MemoryPool {
    /// The blocks held, oldest first.
    pub closed spec fn blocks(self) -> Seq<Seq<u8>> {
        block_views(self.blocks@)
    }

    /// Total memory of the system, in MiB.
    pub closed spec fn system_total(self) -> u64 {
        self.system_total_mb
    }

    /// Memory held, in whole MiB.
    pub open spec fn held_mb(self) -> nat {
        megabytes(self.blocks())
    }

    /// A new block of `size_mb` MiB fits beside those held: the bytes held stay
    /// countable in a `usize`.
    pub open spec fn has_room_for(self, size_mb: nat) -> bool {
        total_bytes(self.blocks()) + size_mb * (MIB as nat) <= usize::MAX
    }

    #[verifier::type_invariant]
    closed spec fn inv(self) -> bool {
        &&& self.fill_pattern@.len() == FILL_PATTERN_LEN
        &&& forall|k: int| 0 <= k < FILL_PATTERN_LEN ==> #[trigger] self.fill_pattern@[k] == pattern_byte(k)
        &&& forall|i: int| 0 <= i < self.blocks@.len() ==> #[trigger] self.blocks@[i]@.len() % (MIB as nat) == 0
        &&& total_bytes(self.blocks()) <= usize::MAX
    }

    /// An empty pool for a system of `system_total_mb` MiB, with its fill pattern:
    /// byte `k` is `k % 256`.
    pub fn new(system_total_mb: u64) -> (r: MemoryPool)
        ensures
            r.blocks() == Seq::<Seq<u8>>::empty(),
            r.system_total() == system_total_mb,
    {
        let mut fill_pattern: Vec<u8> = Vec::with_capacity(FILL_PATTERN_LEN);
        let mut i: usize = 0;
        while i < FILL_PATTERN_LEN
            invariant
                i <= FILL_PATTERN_LEN,
                fill_pattern@.len() == i,
                forall|k: int| 0 <= k < i ==> #[trigger] fill_pattern@[k] == pattern_byte(k),
            decreases FILL_PATTERN_LEN - i,
        {
            fill_pattern.push((i % 256) as u8);
            i = i + 1;
        }
        let blocks: Vec<Vec<u8>> = Vec::new();
        let pool = MemoryPool { blocks, system_total_mb, fill_pattern };
        assert(pool.blocks() =~= Seq::<Seq<u8>>::empty());
        pool
    }

    /// Total memory of the system, in MiB.
    pub fn system_total_memory(&self) -> (r: u64)
        ensures
            r == self.system_total(),
    {
        self.system_total_mb
    }

    /// Number of blocks held.
    pub fn block_count(&self) -> (r: usize)
        ensures
            r == self.blocks().len(),
    {
        self.blocks.len()
    }

    /// Length, in bytes, of block `i`.
    pub fn block_len(&self, i: usize) -> (r: usize)
        requires
            i < self.blocks().len(),
        ensures
            r == self.blocks()[i as int].len(),
    {
        self.blocks[i].len()
    }

    /// Byte `k` of block `i`.
    pub fn block_byte_at(&self, i: usize, k: usize) -> (r: u8)
        requires
            i < self.blocks().len(),
            k < self.blocks()[i as int].len(),
        ensures
            r == self.blocks()[i as int][k as int],
    {
        self.blocks[i][k]
    }

    fn held_bytes(&self) -> (r: usize)
        ensures
            r == total_bytes(self.blocks()),
    {
        proof {
            use_type_invariant(self);
        }
        held_bytes_of(&self.blocks)
    }

    /// Memory held, in whole MiB.
    pub fn current_mb(&self) -> (r: usize)
        ensures
            r == self.held_mb(),
    {
        self.held_bytes() / MIB
    }

    /// Whether a new block of `size_mb` MiB fits beside those held.
    pub fn fits_block(&self, size_mb: usize) -> (r: bool)
        ensures
            r == self.has_room_for(size_mb as nat),
    {
        let held = self.held_bytes();
        match size_mb.checked_mul(MIB) {
            Some(bytes) => bytes <= usize::MAX - held,
            None => false,
        }
    }

    /// The memory, in MiB, that a target of `safe_mb` MiB comes to once the reserve
    /// of the system is kept free: the smaller of the two.
    pub fn usable_mb(&self, safe_mb: usize) -> (r: usize)
        ensures
            r as nat == usable_target(safe_mb as nat, self.system_total()),
    {
        let max_usable_mb = (self.system_total_mb as usize).saturating_sub(MIN_SYSTEM_RESERVE_MB);
        if safe_mb < max_usable_mb {
            safe_mb
        } else {
            max_usable_mb
        }
    }

    /// The block size, in MiB, for a shortfall of `additional_mb` MiB.
    pub fn calculate_block_size(&self, additional_mb: usize) -> (r: usize)
        ensures
            r == block_size_for(additional_mb as nat),
    {
        if additional_mb < 256 {
            SMALL_BLOCK_MB
        } else if additional_mb < 1024 {
            MEDIUM_BLOCK_MB
        } else {
            LARGE_BLOCK_MB
        }
    }

    /// A new block of `size_mb` MiB: the fill pattern repeated, then the first 1000
    /// bytes of each MiB raised by one so that the block is really written.
    pub fn create_memory_block(&self, size_mb: usize) -> (r: Vec<u8>)
        requires
            size_mb * MIB <= usize::MAX,
        ensures
            r@ == block_content(size_mb as nat),
    {
        proof {
            use_type_invariant(self);
        }
        let block_bytes = size_mb * MIB;
        let mut block: Vec<u8> = Vec::with_capacity(block_bytes);
        let mut k: usize = 0;
        while k < block_bytes
            invariant
                block_bytes == size_mb * MIB,
                k <= block_bytes,
                self.fill_pattern@.len() == FILL_PATTERN_LEN,
                forall|j: int| 0 <= j < FILL_PATTERN_LEN ==> #[trigger] self.fill_pattern@[j]
                    == pattern_byte(j),
                block@.len() == k,
                forall|j: int| 0 <= j < k ==> #[trigger] block@[j] == block_byte(j),
            decreases block_bytes - k,
        {
            let p = self.fill_pattern[k % FILL_PATTERN_LEN];
            proof {
                lemma_mod_mod(k as int, 256, 4096);
                assert(p == pattern_byte(k as int));
            }
            let b = if k % MIB < 1000 {
                p.wrapping_add(1)
            } else {
                p
            };
            block.push(b);
            k = k + 1;
        }
        assert(block@ =~= block_content(size_mb as nat));
        block
    }

    /// Drops blocks, last first, while the memory held is above `target_mb` MiB.
    pub fn release_memory_to_target(&mut self, target_mb: usize)
        ensures
            final(self).system_total() == old(self).system_total(),
            final(self).blocks().len() <= old(self).blocks().len(),
            final(self).blocks() == old(self).blocks().take(final(self).blocks().len() as int),
            final(self).held_mb() <= target_mb,
            forall|j: int|
                final(self).blocks().len() < j <= old(self).blocks().len() ==> megabytes(
                    #[trigger] old(self).blocks().take(j),
                ) > target_mb,
    {
        proof {
            use_type_invariant(&*self);
        }
        let ghost start = self.blocks();
        let mut blocks: Vec<Vec<u8>> = Vec::new();
        std::mem::swap(&mut blocks, &mut self.blocks);
        proof {
            assert(block_views(blocks@) == start);
            assert(start.take(start.len() as int) =~= start);
        }
        while held_bytes_of(&blocks) / MIB > target_mb && blocks.len() > 0
            invariant
                block_views(blocks@).len() <= start.len(),
                block_views(blocks@) == start.take(block_views(blocks@).len() as int),
                total_bytes(start) <= usize::MAX,
                total_bytes(block_views(blocks@)) <= usize::MAX,
                forall|i: int| 0 <= i < start.len() ==> #[trigger] start[i].len() % (MIB as nat) == 0,
                forall|j: int|
                    block_views(blocks@).len() < j <= start.len() ==> megabytes(
                        #[trigger] start.take(j),
                    ) > target_mb,
            decreases blocks@.len(),
        {
            proof {
                lemma_total_bytes_prefix(start, blocks@.len() as int);
            }
            let ghost before = block_views(blocks@);
            blocks.pop();
            proof {
                assert(block_views(blocks@) =~= before.drop_last());
                assert(before.drop_last() =~= start.take(before.len() - 1));
                lemma_total_bytes_prefix(start, before.len() - 1);
            }
        }
        proof {
            lemma_total_bytes_prefix(start, blocks@.len() as int);
            if blocks@.len() == 0 {
                assert(total_bytes(block_views(blocks@)) == 0);
            }
            assert forall|i: int| 0 <= i < blocks@.len() implies #[trigger] blocks@[i]@.len() % (
            MIB as nat) == 0 by {
                assert(block_views(blocks@)[i] == start[i]);
            }
        }
        std::mem::swap(&mut blocks, &mut self.blocks);
    }

    /// How to cover the shortfall from `current_mb` up to `target_mb` MiB: the
    /// block size for that shortfall, and the number of such blocks that covers it
    /// (the quotient rounded up).
    pub fn plan_allocation(&self, target_mb: usize, current_mb: usize) -> (r: AllocationPlan)
        requires
            current_mb <= target_mb,
            (target_mb - current_mb) + block_size_for((target_mb - current_mb) as nat) - 1
                <= usize::MAX,
        ensures
            r.block_size_mb == block_size_for((target_mb - current_mb) as nat),
            r.blocks_needed == blocks_to_cover(
                (target_mb - current_mb) as nat,
                r.block_size_mb as nat,
            ),
    {
        let additional_mb = target_mb - current_mb;
        let block_size = self.calculate_block_size(additional_mb);
        let blocks_needed = (additional_mb + (block_size - 1)) / block_size;
        AllocationPlan { block_size_mb: block_size, blocks_needed }
    }

    /// Adds block number `index` of an allocation plan, and says whether the caller
    /// reports progress now (every `BATCH_PROGRESS_INTERVAL` blocks from the first,
    /// and at the last) and whether it pauses (after every `BATCH_PAUSE_INTERVAL`
    /// blocks).
    pub fn allocation_step(&mut self, plan: AllocationPlan, index: usize) -> (r: BatchNotice)
        requires
            index < plan.blocks_needed,
            old(self).has_room_for(plan.block_size_mb as nat),
        ensures
            final(self).system_total() == old(self).system_total(),
            final(self).blocks() == old(self).blocks().push(
                block_content(plan.block_size_mb as nat),
            ),
            final(self).held_mb() == old(self).held_mb() + plan.block_size_mb,
            r.report_progress == (index % BATCH_PROGRESS_INTERVAL == 0 || index
                == plan.blocks_needed - 1),
            r.pause_after == (index % BATCH_PAUSE_INTERVAL == BATCH_PAUSE_INTERVAL - 1),
    {
        proof {
            use_type_invariant(&*self);
        }
        let block = self.create_memory_block(plan.block_size_mb);
        let ghost start = self.blocks();
        let mut blocks: Vec<Vec<u8>> = Vec::new();
        std::mem::swap(&mut blocks, &mut self.blocks);
        blocks.push(block);
        proof {
            assert(block_views(blocks@) =~= start.push(block_content(plan.block_size_mb as nat)));
            lemma_total_bytes_push(start, block_content(plan.block_size_mb as nat));
            lemma_mod_multiples_vanish(plan.block_size_mb as int, 0, MIB as int);
            assert forall|i: int| 0 <= i < blocks@.len() implies #[trigger] blocks@[i]@.len() % (
            MIB as nat) == 0 by {
                if i < start.len() {
                    assert(block_views(blocks@)[i] == start[i]);
                    assert(start[i] == block_views(old(self).blocks@)[i]);
                } else {
                    assert(blocks@[i]@ == block_content(plan.block_size_mb as nat));
                    assert((MIB as int) * plan.block_size_mb + 0 == plan.block_size_mb * (MIB as nat));
                }
            }
            assert forall|i: int| 0 <= i < start.len() implies #[trigger] start[i].len() % (
            MIB as nat) == 0 by {
                assert(start[i] == block_views(old(self).blocks@)[i]);
            }
            lemma_whole_mib(start);
            lemma_megabytes_push(start, plan.block_size_mb as nat);
        }
        std::mem::swap(&mut blocks, &mut self.blocks);
        BatchNotice {
            report_progress: index % BATCH_PROGRESS_INTERVAL == 0 || index == plan.blocks_needed
                - 1,
            pause_after: index % BATCH_PAUSE_INTERVAL == BATCH_PAUSE_INTERVAL - 1,
        }
    }

    /// What to do to bring the memory held to `target_mb` MiB: release blocks where
    /// more is held, add the blocks of a plan where less is held, otherwise nothing.
    pub fn adjustment_for(&self, target_mb: usize) -> (r: MemoryAdjustment)
        requires
            target_mb > self.held_mb() ==> (target_mb - self.held_mb()) + block_size_for(
                (target_mb - self.held_mb()) as nat,
            ) - 1 <= usize::MAX,
        ensures
            (target_mb < self.held_mb()) == (r == MemoryAdjustment::Release),
            (target_mb == self.held_mb()) == (r == MemoryAdjustment::Keep),
            target_mb > self.held_mb() ==> r == MemoryAdjustment::Allocate(
                AllocationPlan {
                    block_size_mb: block_size_for((target_mb - self.held_mb()) as nat) as usize,
                    blocks_needed: blocks_to_cover(
                        (target_mb - self.held_mb()) as nat,
                        block_size_for((target_mb - self.held_mb()) as nat),
                    ) as usize,
                },
            ),
    {
        let current_mb = self.current_mb();
        if target_mb < current_mb {
            MemoryAdjustment::Release
        } else if target_mb > current_mb {
            MemoryAdjustment::Allocate(self.plan_allocation(target_mb, current_mb))
        } else {
            MemoryAdjustment::Keep
        }
    }

    /// Touches every block so that the system keeps it in memory: the first byte of
    /// each non-empty block is raised by one, wrapping.
    pub fn touch_blocks(&mut self)
        ensures
            final(self).system_total() == old(self).system_total(),
            final(self).blocks().len() == old(self).blocks().len(),
            forall|i: int|
                0 <= i < old(self).blocks().len() ==> #[trigger] final(self).blocks()[i]
                    == touched(old(self).blocks()[i]),
            final(self).held_mb() == old(self).held_mb(),
    {
        proof {
            use_type_invariant(&*self);
        }
        let ghost start = self.blocks();
        let mut blocks: Vec<Vec<u8>> = Vec::new();
        std::mem::swap(&mut blocks, &mut self.blocks);
        let n = blocks.len();
        let mut i: usize = 0;
        while i < n
            invariant
                n == blocks@.len(),
                n == start.len(),
                i <= n,
                forall|j: int| 0 <= j < i ==> #[trigger] blocks@[j]@ == touched(start[j]),
                forall|j: int| i <= j < n ==> #[trigger] blocks@[j]@ == start[j],
            decreases n - i,
        {
            if blocks[i].len() > 0 {
                let v = blocks[i][0];
                blocks[i].set(0, v.wrapping_add(1));
            }
            i = i + 1;
        }
        proof {
            assert forall|j: int| 0 <= j < n implies #[trigger] block_views(blocks@)[j].len()
                == start[j].len() by {
                assert(block_views(blocks@)[j] == blocks@[j]@);
            }
            lemma_total_bytes_same_lengths(block_views(blocks@), start);
            assert forall|j: int| 0 <= j < n implies #[trigger] blocks@[j]@.len() % (MIB as nat)
                == 0 by {
                assert(start[j] == block_views(old(self).blocks@)[j]);
                assert(blocks@[j]@.len() == start[j].len());
            }
        }
        let ghost done = blocks@;
        std::mem::swap(&mut blocks, &mut self.blocks);
        proof {
            assert(self.blocks@ == done);
            assert forall|j: int| 0 <= j < n implies #[trigger] self.blocks()[j] == touched(
                start[j],
            ) by {
                assert(self.blocks()[j] == done[j]@);
            }
        }
    }
}

/// A target never reaches into the reserve of the system, nor past the target asked
/// for.
pub proof fn lemma_usable_target_bounds(safe_mb: nat, system_total_mb: u64)
    ensures
        usable_target(safe_mb, system_total_mb) <= safe_mb,
        usable_target(safe_mb, system_total_mb) <= usable_limit(system_total_mb),
{
}

/// The blocks of an allocation plan cover the shortfall, and one block fewer would
/// not: they overshoot it by less than one block.
pub proof fn lemma_plan_covers_shortfall(additional_mb: nat)
    ensures
        blocks_to_cover(additional_mb, block_size_for(additional_mb)) * block_size_for(
            additional_mb,
        ) >= additional_mb,
        blocks_to_cover(additional_mb, block_size_for(additional_mb)) * block_size_for(
            additional_mb,
        ) < additional_mb + block_size_for(additional_mb),
{
    let s = block_size_for(additional_mb) as int;
    let x = additional_mb + s - 1;
    lemma_fundamental_div_mod(x, s);
    lemma_mod_pos_bound(x, s);
    let q = x / s;
    let r = x % s;
    assert(q * s == s * q) by (nonlinear_arith);
    assert(blocks_to_cover(additional_mb, block_size_for(additional_mb)) == q);
}

/// Memory held below a target, once every block of the plan for the shortfall is
/// added, reaches the target and passes it by less than one block.
pub proof fn lemma_allocation_reaches_target(current_mb: nat, target_mb: nat)
    requires
        current_mb <= target_mb,
    ensures
        ({
            let additional = (target_mb - current_mb) as nat;
            let size = block_size_for(additional);
            let count = blocks_to_cover(additional, size);
            &&& current_mb + count * size >= target_mb
            &&& current_mb + count * size < target_mb + size
        }),
{
    lemma_plan_covers_shortfall((target_mb - current_mb) as nat);
}

/// Blocks of 64 MiB cover a shortfall below 256 MiB, blocks of 128 MiB one from
/// 256 MiB to below 1024 MiB, and blocks of 256 MiB any larger shortfall; the block
/// size never shrinks as the shortfall grows.
pub proof fn lemma_block_size_by_shortfall(a: nat, b: nat)
    ensures
        a < 256 ==> block_size_for(a) == 64,
        256 <= a < 1024 ==> block_size_for(a) == 128,
        a >= 1024 ==> block_size_for(a) == 256,
        a <= b ==> block_size_for(a) <= block_size_for(b),
{
}

/// The usable target is the target where it leaves 1024 MiB of the total memory
/// free, and otherwise the total less 1024 MiB (none where the total is below that).
pub proof fn lemma_usable_target_keeps_reserve(safe_mb: nat, system_total_mb: u64)
    ensures
        (system_total_mb as usize) < 1024 ==> usable_target(safe_mb, system_total_mb) == 0,
        (system_total_mb as usize) >= 1024 && safe_mb + 1024 <= (system_total_mb as usize)
            ==> usable_target(safe_mb, system_total_mb) == safe_mb,
        (system_total_mb as usize) >= 1024 && safe_mb + 1024 >= (system_total_mb as usize)
            ==> usable_target(safe_mb, system_total_mb) == (system_total_mb as usize) - 1024,
{
}

/// A touch raises the first byte of a non-empty block by one, wrapping, whatever the
/// block's length, and leaves every other byte and the length as they were; an empty
/// block stays empty.
pub proof fn lemma_touch_first_byte_only(block: Seq<u8>)
    ensures
        touched(block).len() == block.len(),
        block.len() > 0 ==> touched(block)[0] == (block[0] + 1) % 256,
        forall|k: int| 1 <= k < block.len() ==> #[trigger] touched(block)[k] == block[k],
        block.len() == 0 ==> touched(block) == block,
{
}

/// A new block of `size_mb` MiB has `size_mb * 1048576` bytes; byte `k` is `k % 256`,
/// one more (wrapping) in the first 1000 bytes of each MiB; and every MiB of the
/// block holds the same bytes.
pub proof fn lemma_new_block_bytes(size_mb: nat, k: int)
    requires
        0 <= k < size_mb * 1048576,
    ensures
        block_content(size_mb).len() == size_mb * 1048576,
        k % 1048576 < 1000 ==> block_content(size_mb)[k] == (k % 256 + 1) % 256,
        k % 1048576 >= 1000 ==> block_content(size_mb)[k] == k % 256,
        k + 1048576 < size_mb * 1048576 ==> block_content(size_mb)[k + 1048576]
            == block_content(size_mb)[k],
{
    lemma_mod_multiples_vanish(1, k, 1048576);
    lemma_mod_multiples_vanish(4096, k, 256);
}

} // verus!
