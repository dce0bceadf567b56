//! What the data copy decides: where each data cluster is read from, how a
//! short read is completed, and when progress is due.
use crate::layout::{CLUSTER_SIZE, MAX_SOURCE_CLUSTERS};
use crate::writer::StreamingQcow2Writer;
use vstd::prelude::*;

verus! {

/// Bytes of output between two progress reports.
pub const REPORT_INTERVAL_BYTES: u64 = 500_000_000;

/// Completes a cluster read from the source with zeros, up to a full cluster.
pub fn zero_fill_cluster(buf: &mut Vec<u8>)
    requires
        old(buf)@.len() <= CLUSTER_SIZE,
    ensures
        final(buf)@ == old(buf)@ + Seq::new((CLUSTER_SIZE - old(buf)@.len()) as nat, |i: int| 0u8),
        final(buf)@.len() == CLUSTER_SIZE,
{
    let ghost start = buf@;
    let n = CLUSTER_SIZE as usize;
    while buf.len() < n
        invariant
            n == CLUSTER_SIZE,
            start.len() <= buf@.len() <= n,
            buf@ == start + Seq::new((buf@.len() - start.len()) as nat, |i: int| 0u8),
        decreases n - buf@.len(),
    {
        buf.push(0u8);
        assert(buf@ =~= start + Seq::new((buf@.len() - start.len()) as nat, |i: int| 0u8));
    }
}

impl StreamingQcow2Writer {
    /// Offset in the source of the `k`-th data cluster.
    pub fn data_cluster_offset(&self, k: usize) -> (r: u64)
        requires
            self.wf(),
            k < self@.data_clusters.len(),
        ensures
            r == CLUSTER_SIZE * self@.data_clusters[k as int],
    {
        let c = self.data_clusters()[k];
        assert(c < MAX_SOURCE_CLUSTERS);
        c * CLUSTER_SIZE
    }

    /// The image bytes written once the `k`-th data cluster is, when that
    /// write crosses a multiple of the report interval.
    pub fn progress_after(&self, k: usize) -> (r: Option<u64>)
        requires
            self.wf(),
            k < self@.data_clusters.len(),
        ensures
            ({
                let before = CLUSTER_SIZE * (self@.first_data_cluster + k);
                let after = before + CLUSTER_SIZE;
                r == if after / REPORT_INTERVAL_BYTES as int != before / REPORT_INTERVAL_BYTES as int {
                    Some(after as u64)
                } else {
                    None::<u64>
                }
            }),
    {
        let before = (self.first_data_cluster() + k as u64) * CLUSTER_SIZE;
        let after = before + CLUSTER_SIZE;
        if after / REPORT_INTERVAL_BYTES != before / REPORT_INTERVAL_BYTES {
            Some(after)
        } else {
            None
        }
    }
}

} // verus!
