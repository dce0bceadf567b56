//! The layout plan of a streaming qcow2 image and its planner.
use crate::layout::{
    cluster_run, data_clusters_of, divide_and_round_up, guest_clusters_for,
    is_least_refcount_fixed_point, is_refcount_fixed_point, l1_clusters_for, l2_clusters_for,
    least_refcount_blocks, lemma_least_refcount_blocks, lemma_refcount_step_monotone,
    lemma_refused_prefix, plan_clusters, refcount_blocks_step, refcount_table_clusters_for,
    strictly_increasing, well_formed_ranges, CLUSTER_SIZE, MAX_IMAGE_CLUSTERS, MAX_L1_ENTRIES, MAX_SOURCE_CLUSTERS,
};
use std::ops::Range;
use vstd::prelude::*;

verus! {

/// What a plan holds, as mathematical values.
pub struct PlanView {
    pub input_size: int,
    pub l2_clusters: int,
    pub l1_clusters: int,
    pub refcount_blocks: int,
    pub refcount_table_clusters: int,
    pub l1_offset: int,
    pub first_data_cluster: int,
    pub data_clusters: Seq<u64>,
}

/// The plan of an image of a disk of `input_size` bytes whose copied
/// clusters are `data`.
pub open spec fn plan_of(input_size: int, data: Seq<u64>) -> PlanView {
    let l2 = l2_clusters_for(input_size);
    let l1 = l1_clusters_for(input_size);
    let rb = least_refcount_blocks(1 + l1 + l2 + data.len());
    let rt = refcount_table_clusters_for(rb);
    PlanView {
        input_size,
        l2_clusters: l2,
        l1_clusters: l1,
        refcount_blocks: rb,
        refcount_table_clusters: rt,
        l1_offset: CLUSTER_SIZE * (1 + rt + rb),
        first_data_cluster: 1 + rt + rb + l1 + l2,
        data_clusters: data,
    }
}

impl PlanView {
    /// Clusters of the whole image: header, metadata and data.
    pub open spec fn total_clusters(self) -> int {
        self.first_data_cluster + self.data_clusters.len()
    }

    pub open spec fn guest_clusters(self) -> int {
        guest_clusters_for(self.input_size)
    }

    /// Clusters of the image other than the refcount structures.
    pub open spec fn base_clusters(self) -> int {
        1 + self.l1_clusters + self.l2_clusters + self.data_clusters.len()
    }

    /// The image can be addressed by the format.
    pub open spec fn fits(self) -> bool {
        &&& self.total_clusters() <= MAX_IMAGE_CLUSTERS
        &&& self.l2_clusters <= MAX_L1_ENTRIES
    }

    pub open spec fn wf(self) -> bool {
        &&& 0 <= self.input_size <= u64::MAX
        &&& self == plan_of(self.input_size, self.data_clusters)
        &&& is_least_refcount_fixed_point(self.base_clusters(), self.refcount_blocks)
        &&& strictly_increasing(self.data_clusters)
        &&& forall|k: int|
            0 <= k < self.data_clusters.len() ==> #[trigger] self.data_clusters[k] < MAX_SOURCE_CLUSTERS
        &&& self.fits()
    }
}

/// Why a range sequence cannot be planned.
#[derive(Debug, Clone, Copy, PartialEq, Eq, Structural)]
pub enum PlanError {
    /// A range starts in a cluster before the one its predecessor ended in.
    Unsorted,
    /// The image would have more clusters, or more L1 entries, than the
    /// format can address.
    TooLarge,
}

/// The layout of a qcow2 image that holds the selected clusters of a raw disk.
pub struct StreamingQcow2Writer {
    input_size: u64,
    l1_clusters: u32,
    l1_offset: u64,
    refcount_table_clusters: u32,
    refcount_blocks: u64,
    l2_clusters: u64,
    first_data_cluster: u64,
    data_clusters: Vec<u64>,
}

pub open spec fn last_of(last: Option<u64>) -> int {
    match last {
        None => -1,
        Some(l) => l as int,
    }
}

impl View for StreamingQcow2Writer {
    type V = PlanView;

    closed spec fn view(&self) -> PlanView {
        PlanView {
            input_size: self.input_size as int,
            l2_clusters: self.l2_clusters as int,
            l1_clusters: self.l1_clusters as int,
            refcount_blocks: self.refcount_blocks as int,
            refcount_table_clusters: self.refcount_table_clusters as int,
            l1_offset: self.l1_offset as int,
            first_data_cluster: self.first_data_cluster as int,
            data_clusters: self.data_clusters@,
        }
    }
}

impl StreamingQcow2Writer {
    pub open spec fn wf(&self) -> bool {
        self@.wf()
    }

    /// Plans the image of a disk of `input_size` bytes of which the bytes in
    /// `ranges` must be kept.
    pub fn new(input_size: u64, ranges: &[Range<u64>]) -> (r: Result<
        StreamingQcow2Writer,
        PlanError,
    >)
        requires
            well_formed_ranges(ranges@),
        ensures
            plan_clusters(ranges@) is None <==> r == Err::<StreamingQcow2Writer, PlanError>(
                PlanError::Unsorted,
            ),
            plan_clusters(ranges@) is Some && !plan_of(
                input_size as int,
                data_clusters_of(ranges@),
            ).fits() <==> r == Err::<StreamingQcow2Writer, PlanError>(PlanError::TooLarge),
            r is Ok ==> r->Ok_0.wf() && r->Ok_0@ == plan_of(
                input_size as int,
                data_clusters_of(ranges@),
            ),
    {
        let mut data_clusters: Vec<u64> = Vec::new();
        let mut last_cluster: Option<u64> = None;
        let mut i: usize = 0;
        while i < ranges.len()
            invariant
                well_formed_ranges(ranges@),
                0 <= i <= ranges@.len(),
                plan_clusters(ranges@.take(i as int)) == Some((data_clusters@, last_of(last_cluster))),
                strictly_increasing(data_clusters@),
                forall|k: int| 0 <= k < data_clusters@.len() ==> data_clusters@[k] <= last_of(last_cluster),
                data_clusters@.len() <= last_of(last_cluster) + 1,
                last_of(last_cluster) < MAX_SOURCE_CLUSTERS,
            decreases ranges.len() - i,
        {
            let range = &ranges[i];
            let ghost prev = data_clusters@;
            let ghost prev_last = last_of(last_cluster);
            assert(ranges@.take(i + 1).drop_last() =~= ranges@.take(i as int));
            assert(ranges@[i as int].start < ranges@[i as int].end);
            let mut from_cluster = range.start / CLUSTER_SIZE;
            let to_cluster = divide_and_round_up(range.end, CLUSTER_SIZE);
            match last_cluster {
                Some(last) => {
                    if from_cluster < last {
                        proof {
                            lemma_refused_prefix(ranges@, i + 1);
                        }
                        return Err(PlanError::Unsorted);
                    } else if from_cluster == last {
                        // This range starts in the cluster where the last
                        // one ended: that cluster is already listed
                        from_cluster += 1;
                    }
                },
                None => {},
            }
            let ghost from = from_cluster as int;
            let mut cluster = from_cluster;
            while cluster < to_cluster
                invariant
                    from <= cluster <= to_cluster,
                    prev_last < from,
                    data_clusters@ == prev + cluster_run(from, cluster as int),
                    strictly_increasing(prev),
                    forall|k: int| 0 <= k < prev.len() ==> prev[k] <= prev_last,
                    strictly_increasing(data_clusters@),
                    forall|k: int|
                        0 <= k < data_clusters@.len() ==> data_clusters@[k] < cluster,
                decreases to_cluster - cluster,
            {
                data_clusters.push(cluster);
                assert(cluster_run(from, cluster + 1) =~= cluster_run(from, cluster as int).push(
                    cluster,
                ));
                cluster += 1;
            }
            assert(data_clusters@ == prev + cluster_run(from, to_cluster as int));
            last_cluster = Some(to_cluster - 1);
            i += 1;
        }
        assert(ranges@.take(i as int) =~= ranges@);
        let ghost data = data_clusters@;

        let guest_clusters = divide_and_round_up(input_size, CLUSTER_SIZE);
        let l2_clusters = divide_and_round_up(guest_clusters * 8, CLUSTER_SIZE);
        let l1_clusters = divide_and_round_up(l2_clusters * 8, CLUSTER_SIZE);
        let base = 1 + l1_clusters + l2_clusters + data_clusters.len() as u64;

        // Refcount blocks count every cluster, themselves included: iterate
        // from one block until the count describes its own image. The count
        // never decreases and never exceeds `base`, and the first fixed point
        // reached is the least one.
        let mut refcount_blocks: u64 = 1;
        let mut refcount_table_clusters: u64 = 1;
        loop
            invariant
                1 <= base < 0x4_0000_0000_0000,
                1 <= refcount_blocks <= base,
                refcount_table_clusters == refcount_table_clusters_for(refcount_blocks as int),
                refcount_blocks <= refcount_blocks_step(base as int, refcount_blocks as int),
                forall|p: int|
                    #[trigger] is_refcount_fixed_point(base as int, p) ==> refcount_blocks <= p,
            ensures
                is_least_refcount_fixed_point(base as int, refcount_blocks as int),
                refcount_table_clusters == refcount_table_clusters_for(refcount_blocks as int),
                1 <= refcount_blocks <= base,
            decreases base - refcount_blocks,
        {
            let total = base + refcount_table_clusters + refcount_blocks;
            let next = divide_and_round_up(total * 2, CLUSTER_SIZE);
            if next == refcount_blocks {
                break;
            }
            proof {
                lemma_refcount_step_monotone(base as int, refcount_blocks as int, next as int);
                lemma_refcount_step_monotone(base as int, refcount_blocks as int, base as int);
                assert forall|p: int| #[trigger] is_refcount_fixed_point(base as int, p) implies next <= p by {
                    lemma_refcount_step_monotone(base as int, refcount_blocks as int, p);
                }
            }
            refcount_blocks = next;
            refcount_table_clusters = divide_and_round_up(refcount_blocks * 8, CLUSTER_SIZE);
        }
        proof {
            lemma_least_refcount_blocks(base as int, refcount_blocks as int);
        }

        let total_clusters = base + refcount_table_clusters + refcount_blocks;
        if total_clusters > MAX_IMAGE_CLUSTERS || l2_clusters > MAX_L1_ENTRIES {
            return Err(PlanError::TooLarge);
        }
        let l1_offset = CLUSTER_SIZE * (1 + refcount_table_clusters + refcount_blocks);
        let first_data_cluster = 1 + refcount_table_clusters + refcount_blocks + l1_clusters
            + l2_clusters;
        let w = StreamingQcow2Writer {
            input_size,
            l1_clusters: l1_clusters as u32,
            l1_offset,
            refcount_table_clusters: refcount_table_clusters as u32,
            refcount_blocks,
            l2_clusters,
            first_data_cluster,
            data_clusters,
        };
        assert(w@ == plan_of(input_size as int, data));
        Ok(w)
    }

    pub(crate) fn total_clusters(&self) -> (r: u64)
        requires
            self.wf(),
        ensures
            r == self@.total_clusters(),
    {
        self.first_data_cluster + self.data_clusters.len() as u64
    }

    /// Size in bytes of the whole image.
    pub fn file_size(&self) -> (r: u64)
        requires
            self.wf(),
        ensures
            r == CLUSTER_SIZE * (self@.first_data_cluster + self@.data_clusters.len()),
    {
        CLUSTER_SIZE * self.total_clusters()
    }

    /// Clusters of the virtual disk.
    pub fn total_guest_clusters(&self) -> (r: u64)
        requires
            self.wf(),
        ensures
            r == self@.guest_clusters(),
    {
        divide_and_round_up(self.input_size, CLUSTER_SIZE)
    }

    /// Size in bytes of the virtual disk.
    pub fn input_size(&self) -> (r: u64)
        ensures
            r == self@.input_size,
    {
        self.input_size
    }

    /// Index of the first cluster that holds copied data.
    pub fn first_data_cluster(&self) -> (r: u64)
        ensures
            r == self@.first_data_cluster,
    {
        self.first_data_cluster
    }

    /// Source clusters to copy, in the order they are stored.
    pub fn data_clusters(&self) -> (r: &Vec<u64>)
        ensures
            r@ == self@.data_clusters,
    {
        &self.data_clusters
    }

    pub(crate) fn l1_offset(&self) -> (r: u64)
        ensures
            r == self@.l1_offset,
    {
        self.l1_offset
    }

    pub(crate) fn l1_clusters(&self) -> (r: u64)
        ensures
            r == self@.l1_clusters,
    {
        self.l1_clusters as u64
    }

    pub(crate) fn l2_clusters(&self) -> (r: u64)
        ensures
            r == self@.l2_clusters,
    {
        self.l2_clusters
    }

    pub(crate) fn refcount_blocks(&self) -> (r: u64)
        ensures
            r == self@.refcount_blocks,
    {
        self.refcount_blocks
    }

    pub(crate) fn refcount_table_clusters(&self) -> (r: u64)
        ensures
            r == self@.refcount_table_clusters,
    {
        self.refcount_table_clusters as u64
    }
}

} // verus!
