//! The arithmetic of the image layout: cluster counts of every metadata
//! structure, the refcount sizing fixed point, and the list of data clusters
//! that a sequence of byte ranges selects.
use std::ops::Range;
use vstd::prelude::*;

verus! {

/// Size in bytes of one cluster, the unit of allocation of the image.
pub const CLUSTER_SIZE: u64 = 65536;

/// log2 of `CLUSTER_SIZE`, as the header records it.
pub const CLUSTER_BITS: u32 = 16;

/// The most clusters an image may have: every host offset must fit in the
/// 63 bits that a mapping entry leaves beside its flag bit.
pub const MAX_IMAGE_CLUSTERS: u64 = 0x8000_0000_0000;

/// The most entries the L1 table may have: the header stores its size in 32 bits.
pub const MAX_L1_ENTRIES: u64 = 0xffff_ffff;

/// Clusters of the largest source a 64-bit size can describe.
pub const MAX_SOURCE_CLUSTERS: u64 = 0x1_0000_0000_0000;

/// `ceil(a / b)`.
pub open spec fn ceil_div(a: int, b: int) -> int {
    (a + b - 1) / b
}

/// Number of clusters needed to hold `bytes` bytes.
pub open spec fn clusters_for(bytes: int) -> int {
    ceil_div(bytes, CLUSTER_SIZE as int)
}

/// Guest clusters of a virtual disk of `input_size` bytes.
pub open spec fn guest_clusters_for(input_size: int) -> int {
    clusters_for(input_size)
}

/// L2 table clusters: one 8-byte entry per guest cluster.
pub open spec fn l2_clusters_for(input_size: int) -> int {
    clusters_for(8 * guest_clusters_for(input_size))
}

/// L1 table clusters: one 8-byte entry per L2 cluster.
pub open spec fn l1_clusters_for(input_size: int) -> int {
    clusters_for(8 * l2_clusters_for(input_size))
}

/// Refcount table clusters: one 8-byte entry per refcount block.
pub open spec fn refcount_table_clusters_for(refcount_blocks: int) -> int {
    clusters_for(8 * refcount_blocks)
}

/// Clusters of an image with `base` clusters besides its refcount structures,
/// when it has `refcount_blocks` refcount blocks.
pub open spec fn total_clusters_with(base: int, refcount_blocks: int) -> int {
    base + refcount_table_clusters_for(refcount_blocks) + refcount_blocks
}

/// Refcount blocks (2 bytes per cluster) needed by the image that
/// `refcount_blocks` blocks make.
pub open spec fn refcount_blocks_step(base: int, refcount_blocks: int) -> int {
    clusters_for(2 * total_clusters_with(base, refcount_blocks))
}

/// A count of refcount blocks that describes exactly the image it is part of.
pub open spec fn is_refcount_fixed_point(base: int, refcount_blocks: int) -> bool {
    refcount_blocks >= 1 && refcount_blocks_step(base, refcount_blocks) == refcount_blocks
}

/// The smallest self-consistent count of refcount blocks.
pub open spec fn is_least_refcount_fixed_point(base: int, refcount_blocks: int) -> bool {
    &&& is_refcount_fixed_point(base, refcount_blocks)
    &&& forall|p: int| #[trigger] is_refcount_fixed_point(base, p) ==> refcount_blocks <= p
}

/// The refcount block count of an image with `base` other clusters.
pub open spec fn least_refcount_blocks(base: int) -> int {
    choose|rb: int| is_least_refcount_fixed_point(base, rb)
}

/// Every range is non-empty.
pub open spec fn well_formed_ranges(ranges: Seq<Range<u64>>) -> bool {
    forall|i: int| 0 <= i < ranges.len() ==> (#[trigger] ranges[i]).start < ranges[i].end
}

/// The clusters `from, from + 1, ..., to - 1`.
pub open spec fn cluster_run(from: int, to: int) -> Seq<u64> {
    Seq::new((to - from) as nat, |i: int| (from + i) as u64)
}

/// The data clusters that `ranges` select, with the last cluster of the last
/// range (-1 for no range), or `None` where a range starts in a cluster before
/// the one its predecessor ended in.
pub open spec fn plan_clusters(ranges: Seq<Range<u64>>) -> Option<(Seq<u64>, int)>
    decreases ranges.len(),
{
    if ranges.len() == 0 {
        Some((seq![], -1))
    } else {
        match plan_clusters(ranges.drop_last()) {
            None => None,
            Some(prev) => {
                let r = ranges.last();
                let from = r.start as int / CLUSTER_SIZE as int;
                let to = clusters_for(r.end as int);
                if from < prev.1 {
                    None
                } else {
                    let first = if from == prev.1 {
                        from + 1
                    } else {
                        from
                    };
                    Some((prev.0 + cluster_run(first, to), to - 1))
                }
            },
        }
    }
}

/// The data-cluster list of an accepted range sequence.
pub open spec fn data_clusters_of(ranges: Seq<Range<u64>>) -> Seq<u64> {
    plan_clusters(ranges).unwrap().0
}

pub open spec fn strictly_increasing(s: Seq<u64>) -> bool {
    forall|i: int, j: int| 0 <= i < j < s.len() ==> s[i] < s[j]
}

/// `ceil(a / b)` on machine integers, without overflow for any `a`.
pub fn divide_and_round_up(a: u64, b: u64) -> (r: u64)
    requires
        b > 0,
    ensures
        r == ceil_div(a as int, b as int),
{
    let q = a / b;
    let m = a % b;
    proof {
        vstd::arithmetic::div_mod::lemma_fundamental_div_mod(a as int, b as int);
        assert((q + 1) * b == q * b + b && q * b == b * q) by (nonlinear_arith);
        if m == 0 {
            vstd::arithmetic::div_mod::lemma_fundamental_div_mod_converse(
                a + b - 1,
                b as int,
                q as int,
                b - 1,
            );
        } else {
            vstd::arithmetic::div_mod::lemma_fundamental_div_mod_converse(
                a + b - 1,
                b as int,
                q + 1,
                m - 1,
            );
        }
    }
    if m == 0 {
        q
    } else {
        assert(q < u64::MAX) by (nonlinear_arith)
            requires
                q == a / b,
                b > 1,
        ;
        q + 1
    }
}

/// The range of `length` bytes from `offset`; `None` when it is empty or
/// runs past the largest 64-bit offset.
pub fn range_from_extent(offset: u64, length: u64) -> (r: Option<Range<u64>>)
    ensures
        r is Some <==> 0 < length && offset + length <= u64::MAX,
        r matches Some(range) ==> range.start == offset && range.end == offset + length,
{
    if length == 0 || offset > u64::MAX - length {
        None
    } else {
        Some(Range { start: offset, end: offset + length })
    }
}

/// The whole disk as one range, or no range for an empty disk.
pub fn whole_disk(input_size: u64) -> (r: Vec<Range<u64>>)
    ensures
        well_formed_ranges(r@),
        input_size == 0 ==> r@.len() == 0,
        input_size > 0 ==> r@.len() == 1 && r@[0].start == 0 && r@[0].end == input_size,
{
    let mut r: Vec<Range<u64>> = Vec::new();
    if input_size > 0 {
        r.push(Range { start: 0, end: input_size });
    }
    r
}

/// Whether every range is non-empty, as the planner requires.
pub fn ranges_well_formed(ranges: &[Range<u64>]) -> (r: bool)
    ensures
        r == well_formed_ranges(ranges@),
{
    let mut i: usize = 0;
    while i < ranges.len()
        invariant
            0 <= i <= ranges@.len(),
            forall|j: int| 0 <= j < i ==> (#[trigger] ranges@[j]).start < ranges@[j].end,
        decreases ranges.len() - i,
    {
        if ranges[i].start >= ranges[i].end {
            return false;
        }
        i += 1;
    }
    true
}

/// More refcount blocks never call for fewer.
pub proof fn lemma_refcount_step_monotone(base: int, a: int, b: int)
    requires
        0 <= a <= b,
    ensures
        refcount_blocks_step(base, a) <= refcount_blocks_step(base, b),
{
}

/// The least fixed point is the one `least_refcount_blocks` names.
pub proof fn lemma_least_refcount_blocks(base: int, rb: int)
    requires
        is_least_refcount_fixed_point(base, rb),
    ensures
        least_refcount_blocks(base) == rb,
{
    let c = least_refcount_blocks(base);
    assert(is_least_refcount_fixed_point(base, c));
    assert(is_refcount_fixed_point(base, c));
    assert(is_refcount_fixed_point(base, rb));
}

/// Once a prefix of the ranges is refused, so is the whole sequence.
pub proof fn lemma_refused_prefix(ranges: Seq<Range<u64>>, k: int)
    requires
        0 <= k <= ranges.len(),
        plan_clusters(ranges.take(k)) is None,
    ensures
        plan_clusters(ranges) is None,
    decreases ranges.len(),
{
    if k == ranges.len() {
        assert(ranges.take(k) =~= ranges);
    } else {
        assert(ranges.drop_last().take(k) =~= ranges.take(k));
        lemma_refused_prefix(ranges.drop_last(), k);
    }
}

} // verus!
