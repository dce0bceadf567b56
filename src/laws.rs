//! Properties of the plan and of the encoded metadata, proved over the
//! contracts of the planner and the encoder.
use crate::bytes::{lemma_be_u16s_len, lemma_be_u64s_len};
use crate::encode::{
    l2_entries, metadata_bytes, refcount_block_entries, COPIED_FLAG, HEADER_FIELDS_LEN,
};
use crate::layout::{
    clusters_for, data_clusters_of, guest_clusters_for, lemma_refused_prefix, plan_clusters,
    strictly_increasing, well_formed_ranges, CLUSTER_SIZE,
};
use crate::writer::{plan_of, PlanView, StreamingQcow2Writer};
use std::ops::Range;
use vstd::prelude::*;

verus! {

/// Sum of a sequence of refcount entries.
pub open spec fn refcount_sum(s: Seq<u16>) -> int
    decreases s.len(),
{
    if s.len() == 0 {
        0
    } else {
        refcount_sum(s.drop_last()) + s.last() as int
    }
}

proof fn lemma_plan_shape(ranges: Seq<Range<u64>>, n: int)
    requires
        0 <= n,
        well_formed_ranges(ranges),
        plan_clusters(ranges) is Some,
        forall|i: int| 0 <= i < ranges.len() ==> (#[trigger] ranges[i]).end <= n,
    ensures
        strictly_increasing(plan_clusters(ranges).unwrap().0),
        forall|k: int|
            0 <= k < plan_clusters(ranges).unwrap().0.len() ==> plan_clusters(ranges).unwrap().0[k]
                <= plan_clusters(ranges).unwrap().1,
        plan_clusters(ranges).unwrap().1 < clusters_for(n),
        -1 <= plan_clusters(ranges).unwrap().1,
    decreases ranges.len(),
{
    if ranges.len() > 0 {
        let prefix = ranges.drop_last();
        assert forall|i: int| 0 <= i < prefix.len() implies (#[trigger] prefix[i]).end <= n by {
            assert(prefix[i] == ranges[i]);
        }
        assert(ranges[ranges.len() - 1].start < ranges[ranges.len() - 1].end);
        lemma_plan_shape(prefix, n);
    }
}

/// The data-cluster list of any accepted range sequence ascends strictly,
/// and when the ranges lie within the disk, every element is a guest cluster.
pub proof fn lemma_data_clusters_ascend_within_disk(input_size: u64, ranges: Seq<Range<u64>>)
    requires
        well_formed_ranges(ranges),
        plan_clusters(ranges) is Some,
        forall|i: int| 0 <= i < ranges.len() ==> (#[trigger] ranges[i]).end <= input_size,
    ensures
        strictly_increasing(data_clusters_of(ranges)),
        forall|k: int|
            0 <= k < data_clusters_of(ranges).len() ==> 0 <= #[trigger] data_clusters_of(ranges)[k]
                < guest_clusters_for(input_size as int),
{
    lemma_plan_shape(ranges, input_size as int);
}

/// A range that starts in a cluster before the last cluster of the range
/// before it makes the whole sequence refused.
pub proof fn lemma_overlap_refused(ranges: Seq<Range<u64>>, i: int)
    requires
        well_formed_ranges(ranges),
        0 < i < ranges.len(),
        ranges[i].start / CLUSTER_SIZE < clusters_for(ranges[i - 1].end as int) - 1,
    ensures
        plan_clusters(ranges) is None,
{
    let prefix = ranges.take(i + 1);
    assert(prefix.drop_last() =~= ranges.take(i));
    assert(ranges.take(i).drop_last() =~= ranges.take(i - 1));
    assert(ranges.take(i).last() == ranges[i - 1]);
    assert(prefix.last() == ranges[i]);
    reveal_with_fuel(plan_clusters, 2);
    assert(plan_clusters(prefix) is None);
    lemma_refused_prefix(ranges, i + 1);
}

/// Planning is a function of its inputs: two plans of the same disk and
/// ranges agree, and so do their metadata bytes.
pub proof fn lemma_planning_deterministic(
    input_size: u64,
    ranges: Seq<Range<u64>>,
    a: StreamingQcow2Writer,
    b: StreamingQcow2Writer,
)
    requires
        a@ == plan_of(input_size as int, data_clusters_of(ranges)),
        b@ == plan_of(input_size as int, data_clusters_of(ranges)),
    ensures
        a@ == b@,
        metadata_bytes(a@) == metadata_bytes(b@),
{
}

/// The metadata fills exactly the clusters before the first data cluster.
pub proof fn lemma_metadata_len(p: PlanView)
    requires
        p.wf(),
    ensures
        metadata_bytes(p).len() == CLUSTER_SIZE * p.first_data_cluster,
{
    lemma_be_u64s_len(crate::encode::refcount_table_entries(p));
    lemma_be_u16s_len(refcount_block_entries(p));
    lemma_be_u64s_len(crate::encode::l1_entries(p));
    lemma_be_u64s_len(l2_entries(p));
    assert(crate::encode::header_fields(p).len() == HEADER_FIELDS_LEN);
}

proof fn lemma_flag_bits(x: u64)
    requires
        x < COPIED_FLAG,
    ensures
        (x | COPIED_FLAG) != 0,
        (x | COPIED_FLAG) & !COPIED_FLAG == x,
{
    assert((x | 0x8000_0000_0000_0000u64) != 0) by (bit_vector);
    assert(x < 0x8000_0000_0000_0000u64 ==> (x | 0x8000_0000_0000_0000u64) & !0x8000_0000_0000_0000u64
        == x) by (bit_vector);
}

/// The L2 entry of each copied guest cluster is non-zero and points at its
/// position in the data region; every other guest cluster is a hole.
pub proof fn lemma_l2_maps_data_clusters(p: PlanView)
    requires
        p.wf(),
    ensures
        forall|k: int|
            0 <= k < p.data_clusters.len() && p.data_clusters[k] < p.guest_clusters() ==> {
                let e = #[trigger] l2_entries(p)[p.data_clusters[k] as int];
                e != 0 && e & !COPIED_FLAG == CLUSTER_SIZE * (p.first_data_cluster + k)
            },
        forall|g: int|
            0 <= g < p.guest_clusters() && !p.data_clusters.contains(g as u64) ==> #[trigger] l2_entries(
                p,
            )[g] == 0,
{
    assert forall|k: int|
        0 <= k < p.data_clusters.len() && p.data_clusters[k] < p.guest_clusters() implies {
        let e = #[trigger] l2_entries(p)[p.data_clusters[k] as int];
        e != 0 && e & !COPIED_FLAG == CLUSTER_SIZE * (p.first_data_cluster + k)
    } by {
        let c = p.data_clusters[k];
        assert(p.data_clusters.contains(c));
        let j = p.data_clusters.index_of(c);
        assert(j == k) by {
            if j < k {
                assert(p.data_clusters[j] < p.data_clusters[k]);
            } else if j > k {
                assert(p.data_clusters[k] < p.data_clusters[j]);
            }
        }
        lemma_flag_bits((CLUSTER_SIZE * (p.first_data_cluster + k)) as u64);
    }
}

proof fn lemma_refcount_sum_prefix(n: nat, t: int)
    requires
        0 <= t <= n,
    ensures
        refcount_sum(Seq::new(n, |i: int| if i < t { 1u16 } else { 0u16 })) == t,
    decreases n,
{
    let s = Seq::new(n, |i: int| if i < t { 1u16 } else { 0u16 });
    if n > 0 {
        if t == n {
            lemma_refcount_sum_prefix((n - 1) as nat, t - 1);
            assert(s.drop_last() =~= Seq::new((n - 1) as nat, |i: int| if i < t - 1 { 1u16 } else { 0u16 }));
        } else {
            lemma_refcount_sum_prefix((n - 1) as nat, t);
            assert(s.drop_last() =~= Seq::new((n - 1) as nat, |i: int| if i < t { 1u16 } else { 0u16 }));
        }
    }
}

/// The refcount blocks hold 1 for each of the image's clusters, in order
/// from cluster 0, and 0 after: their entries sum to the cluster count.
pub proof fn lemma_refcounts_count_every_cluster(p: PlanView)
    requires
        p.wf(),
    ensures
        refcount_block_entries(p).len() >= p.total_clusters(),
        forall|i: int|
            0 <= i < refcount_block_entries(p).len() ==> #[trigger] refcount_block_entries(p)[i] == if i
                < p.total_clusters() {
                1u16
            } else {
                0u16
            },
        refcount_sum(refcount_block_entries(p)) == p.total_clusters(),
{
    let s = refcount_block_entries(p);
    let t = p.total_clusters();
    assert(s =~= Seq::new(s.len(), |i: int| if i < t { 1u16 } else { 0u16 }));
    lemma_refcount_sum_prefix(s.len(), t);
}

/// The data region of an image of `source`: for each data cluster in turn,
/// the source cluster it copies, zero-filled past the end of the source.
pub open spec fn data_region(p: PlanView, source: Seq<u8>) -> Seq<u8> {
    Seq::new(
        (CLUSTER_SIZE * p.data_clusters.len()) as nat,
        |j: int|
            {
                let off = CLUSTER_SIZE * p.data_clusters[j / CLUSTER_SIZE as int] + j
                    % CLUSTER_SIZE as int;
                if off < source.len() {
                    source[off]
                } else {
                    0u8
                }
            },
    )
}

/// The byte at guest offset `x` as a reader finds it in `image`, through the
/// L2 entry of its cluster.
pub open spec fn guest_byte(p: PlanView, image: Seq<u8>, x: int) -> u8 {
    let e = l2_entries(p)[x / CLUSTER_SIZE as int];
    if e == 0 {
        0u8
    } else {
        image[(e & !COPIED_FLAG) as int + x % CLUSTER_SIZE as int]
    }
}

/// Reading the image (metadata, then the data region) at a guest offset
/// gives the source byte there when its cluster was copied, and zero
/// otherwise.
pub proof fn lemma_guest_reads_round_trip(p: PlanView, source: Seq<u8>, x: int)
    requires
        p.wf(),
        source.len() == p.input_size,
        0 <= x < p.input_size,
    ensures
        guest_byte(p, metadata_bytes(p) + data_region(p, source), x) == if p.data_clusters.contains(
            (x / CLUSTER_SIZE as int) as u64,
        ) {
            source[x]
        } else {
            0u8
        },
{
    let g = x / CLUSTER_SIZE as int;
    let image = metadata_bytes(p) + data_region(p, source);
    lemma_l2_maps_data_clusters(p);
    lemma_metadata_len(p);
    assert(0 <= g < p.guest_clusters());
    if p.data_clusters.contains(g as u64) {
        let k = p.data_clusters.index_of(g as u64);
        assert(p.data_clusters[k] == g);
        let e = l2_entries(p)[g];
        assert(e & !COPIED_FLAG == CLUSTER_SIZE * (p.first_data_cluster + k));
        let j = CLUSTER_SIZE * k + x % CLUSTER_SIZE as int;
        assert(j / CLUSTER_SIZE as int == k);
        assert(j % CLUSTER_SIZE as int == x % CLUSTER_SIZE as int);
        assert(image[CLUSTER_SIZE * (p.first_data_cluster + k) + x % CLUSTER_SIZE as int]
            == data_region(p, source)[j]);
    } else {
        assert(l2_entries(p)[g] == 0);
    }
}

} // verus!
