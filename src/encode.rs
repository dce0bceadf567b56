//! Bit-exact encoding of the image metadata: header, refcount table and
//! blocks, L1 and L2 tables.
use crate::bytes::{be_u16s, be_u32, be_u64, be_u64s, push_u16, push_u32, push_u64};
use crate::layout::{CLUSTER_BITS, CLUSTER_SIZE};
use crate::writer::{PlanView, StreamingQcow2Writer};
use vstd::prelude::*;

verus! {

/// Top bit of a table entry: the cluster it points at has refcount 1.
pub const COPIED_FLAG: u64 = 0x8000_0000_0000_0000;

/// 8-byte entries per cluster.
pub const U64_ENTRIES_PER_CLUSTER: u64 = 8192;

/// 2-byte refcount entries per cluster.
pub const REFCOUNT_ENTRIES_PER_CLUSTER: u64 = 32768;

/// Length of the header fields before the padding of cluster 0.
pub const HEADER_FIELDS_LEN: u64 = 72;

/// The header fields, in order. The L1 table size is the number of L1
/// entries that address every guest cluster, one entry per L2 cluster.
pub open spec fn header_fields(p: PlanView) -> Seq<u8> {
    seq![0x51u8, 0x46u8, 0x49u8, 0xfbu8] + be_u32(2) + be_u64(0) + be_u32(0) + be_u32(CLUSTER_BITS)
        + be_u64(p.input_size as u64) + be_u32(0) + be_u32(p.l2_clusters as u32) + be_u64(
        p.l1_offset as u64,
    ) + be_u64(CLUSTER_SIZE) + be_u32(p.refcount_table_clusters as u32) + be_u32(0) + be_u64(0)
}

/// Cluster 0: the header fields, zero-padded.
pub open spec fn header_cluster(p: PlanView) -> Seq<u8> {
    header_fields(p) + Seq::new((CLUSTER_SIZE - HEADER_FIELDS_LEN) as nat, |i: int| 0u8)
}

/// Refcount table: a pointer to each refcount block, which follow the table.
pub open spec fn refcount_table_entries(p: PlanView) -> Seq<u64> {
    Seq::new(
        (p.refcount_table_clusters * U64_ENTRIES_PER_CLUSTER) as nat,
        |i: int|
            if i < p.refcount_blocks {
                (CLUSTER_SIZE * (1 + p.refcount_table_clusters + i)) as u64
            } else {
                0u64
            },
    )
}

/// Refcount blocks: 1 for each cluster of the image, 0 beyond.
pub open spec fn refcount_block_entries(p: PlanView) -> Seq<u16> {
    Seq::new(
        (p.refcount_blocks * REFCOUNT_ENTRIES_PER_CLUSTER) as nat,
        |i: int|
            if i < p.total_clusters() {
                1u16
            } else {
                0u16
            },
    )
}

/// L1 table: a pointer to each L2 cluster, which follow the L1 table.
pub open spec fn l1_entries(p: PlanView) -> Seq<u64> {
    Seq::new(
        (p.l1_clusters * U64_ENTRIES_PER_CLUSTER) as nat,
        |i: int|
            if i < p.l2_clusters {
                ((p.l1_offset + p.l1_clusters * CLUSTER_SIZE + i * CLUSTER_SIZE) as u64) | COPIED_FLAG
            } else {
                0u64
            },
    )
}

/// The L2 entry of guest cluster `g`: the offset of the data cluster that
/// holds it, or 0 for a hole.
pub open spec fn l2_entry(p: PlanView, g: int) -> u64 {
    if g < p.guest_clusters() && p.data_clusters.contains(g as u64) {
        ((CLUSTER_SIZE * (p.first_data_cluster + p.data_clusters.index_of(g as u64))) as u64)
            | COPIED_FLAG
    } else {
        0u64
    }
}

/// L2 tables: one entry per guest cluster, 0 beyond.
pub open spec fn l2_entries(p: PlanView) -> Seq<u64> {
    Seq::new((p.l2_clusters * U64_ENTRIES_PER_CLUSTER) as nat, |g: int| l2_entry(p, g))
}

/// Everything the image holds before its data clusters.
pub open spec fn metadata_bytes(p: PlanView) -> Seq<u8> {
    header_cluster(p) + be_u64s(refcount_table_entries(p)) + be_u16s(refcount_block_entries(p))
        + be_u64s(l1_entries(p)) + be_u64s(l2_entries(p))
}

impl StreamingQcow2Writer {
    fn write_header_cluster(&self, out: &mut Vec<u8>)
        requires
            self.wf(),
        ensures
            final(out)@ == old(out)@ + header_cluster(self@),
    {
        let ghost start = out@;
        out.push(0x51u8);
        out.push(0x46u8);
        out.push(0x49u8);
        out.push(0xfbu8);
        push_u32(out, 2);
        // No backing file: offset and length of its name
        push_u64(out, 0);
        push_u32(out, 0);
        push_u32(out, CLUSTER_BITS);
        push_u64(out, self.input_size());
        // No encryption
        push_u32(out, 0);
        push_u32(out, self.l2_clusters() as u32);
        push_u64(out, self.l1_offset());
        // The refcount table starts at cluster 1
        push_u64(out, CLUSTER_SIZE);
        push_u32(out, self.refcount_table_clusters() as u32);
        // No snapshots: count and table offset
        push_u32(out, 0);
        push_u64(out, 0);
        assert(out@ =~= start + header_fields(self@));
        let ghost fields = out@;
        let mut i: u64 = HEADER_FIELDS_LEN;
        while i < CLUSTER_SIZE
            invariant
                HEADER_FIELDS_LEN <= i <= CLUSTER_SIZE,
                out@ == fields + Seq::new((i - HEADER_FIELDS_LEN) as nat, |j: int| 0u8),
            decreases CLUSTER_SIZE - i,
        {
            out.push(0u8);
            i += 1;
            assert(out@ =~= fields + Seq::new((i - HEADER_FIELDS_LEN) as nat, |j: int| 0u8));
        }
        assert(out@ =~= start + header_cluster(self@));
    }

    fn write_refcount_table(&self, out: &mut Vec<u8>)
        requires
            self.wf(),
        ensures
            final(out)@ == old(out)@ + be_u64s(refcount_table_entries(self@)),
    {
        let ghost start = out@;
        let ghost entries = refcount_table_entries(self@);
        let blocks = self.refcount_blocks();
        let table_clusters = self.refcount_table_clusters();
        let n = table_clusters * U64_ENTRIES_PER_CLUSTER;
        let mut i: u64 = 0;
        while i < n
            invariant
                self.wf(),
                blocks == self@.refcount_blocks,
                table_clusters == self@.refcount_table_clusters,
                n == entries.len(),
                entries == refcount_table_entries(self@),
                i <= n,
                out@ == start + be_u64s(entries.take(i as int)),
            decreases n - i,
        {
            let e = if i < blocks {
                CLUSTER_SIZE * (1 + table_clusters + i)
            } else {
                0
            };
            assert(e == entries[i as int]);
            push_u64(out, e);
            assert(entries.take(i + 1).drop_last() =~= entries.take(i as int));
            i += 1;
        }
        assert(entries.take(n as int) =~= entries);
    }

    fn write_refcount_blocks(&self, out: &mut Vec<u8>)
        requires
            self.wf(),
        ensures
            final(out)@ == old(out)@ + be_u16s(refcount_block_entries(self@)),
    {
        let ghost start = out@;
        let ghost entries = refcount_block_entries(self@);
        let total = self.total_clusters();
        let n = self.refcount_blocks() * REFCOUNT_ENTRIES_PER_CLUSTER;
        let mut i: u64 = 0;
        while i < n
            invariant
                self.wf(),
                total == self@.total_clusters(),
                n == entries.len(),
                entries == refcount_block_entries(self@),
                i <= n,
                out@ == start + be_u16s(entries.take(i as int)),
            decreases n - i,
        {
            let e: u16 = if i < total {
                1
            } else {
                0
            };
            push_u16(out, e);
            assert(entries.take(i + 1).drop_last() =~= entries.take(i as int));
            i += 1;
        }
        assert(entries.take(n as int) =~= entries);
    }

    fn write_l1_table(&self, out: &mut Vec<u8>)
        requires
            self.wf(),
        ensures
            final(out)@ == old(out)@ + be_u64s(l1_entries(self@)),
    {
        let ghost start = out@;
        let ghost entries = l1_entries(self@);
        let l2_clusters = self.l2_clusters();
        let l2_offset = self.l1_offset() + self.l1_clusters() * CLUSTER_SIZE;
        let n = self.l1_clusters() * U64_ENTRIES_PER_CLUSTER;
        let mut i: u64 = 0;
        while i < n
            invariant
                self.wf(),
                l2_clusters == self@.l2_clusters,
                l2_offset == self@.l1_offset + self@.l1_clusters * CLUSTER_SIZE,
                n == entries.len(),
                entries == l1_entries(self@),
                i <= n,
                out@ == start + be_u64s(entries.take(i as int)),
            decreases n - i,
        {
            let e = if i < l2_clusters {
                (l2_offset + i * CLUSTER_SIZE) | COPIED_FLAG
            } else {
                0
            };
            assert(e == entries[i as int]);
            push_u64(out, e);
            assert(entries.take(i + 1).drop_last() =~= entries.take(i as int));
            i += 1;
        }
        assert(entries.take(n as int) =~= entries);
    }

    fn write_l2_tables(&self, out: &mut Vec<u8>)
        requires
            self.wf(),
        ensures
            final(out)@ == old(out)@ + be_u64s(l2_entries(self@)),
    {
        let ghost start = out@;
        let ghost entries = l2_entries(self@);
        let ghost p = self@;
        let data = self.data_clusters();
        let first = self.first_data_cluster();
        let guest_clusters = self.total_guest_clusters();
        let n = self.l2_clusters() * U64_ENTRIES_PER_CLUSTER;
        // Both the guest clusters and the data clusters ascend: walk them
        // side by side.
        let mut pos: usize = 0;
        let mut g: u64 = 0;
        while g < n
            invariant
                self.wf(),
                p == self@,
                data@ == p.data_clusters,
                first == p.first_data_cluster,
                guest_clusters == p.guest_clusters(),
                n == entries.len(),
                entries == l2_entries(p),
                g <= n,
                pos <= data@.len(),
                forall|j: int| 0 <= j < pos ==> data@[j] < g,
                out@ == start + be_u64s(entries.take(g as int)),
            decreases n - g,
        {
            let mut e: u64 = 0;
            if g < guest_clusters {
                while pos < data.len() && data[pos] < g
                    invariant
                        pos <= data@.len(),
                        forall|j: int| 0 <= j < pos ==> data@[j] < g,
                    decreases data@.len() - pos,
                {
                    pos += 1;
                }
                if pos < data.len() && data[pos] == g {
                    assert(p.data_clusters.contains(g));
                    assert(p.data_clusters.index_of(g) == pos as int);
                    e = (CLUSTER_SIZE * (first + pos as u64)) | COPIED_FLAG;
                } else {
                    assert(!p.data_clusters.contains(g)) by {
                        if p.data_clusters.contains(g) {
                            let j = p.data_clusters.index_of(g);
                            if j >= pos {
                                assert(data@[pos as int] <= data@[j]);
                            }
                        }
                    }
                }
            }
            assert(e == entries[g as int]);
            push_u64(out, e);
            assert(entries.take(g + 1).drop_last() =~= entries.take(g as int));
            g += 1;
        }
        assert(entries.take(n as int) =~= entries);
    }

    /// Appends the header and all metadata of the image: everything before
    /// its first data cluster.
    pub fn write_header(&self, out: &mut Vec<u8>)
        requires
            self.wf(),
        ensures
            final(out)@ == old(out)@ + metadata_bytes(self@),
    {
        let ghost start = out@;
        self.write_header_cluster(out);
        self.write_refcount_table(out);
        self.write_refcount_blocks(out);
        self.write_l1_table(out);
        self.write_l2_tables(out);
        assert(out@ =~= start + metadata_bytes(self@));
    }
}

} // verus!
