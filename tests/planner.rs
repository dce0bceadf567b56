use std::ops::Range;
use streaming_qcow2_writer::copy::{zero_fill_cluster, REPORT_INTERVAL_BYTES};
use streaming_qcow2_writer::layout::{
    divide_and_round_up, range_from_extent, ranges_well_formed, whole_disk, CLUSTER_SIZE,
};
use streaming_qcow2_writer::writer::{PlanError, StreamingQcow2Writer};

const CS: u64 = 65536;
const FLAG: u64 = 1 << 63;

fn plan(n: u64, ranges: &[Range<u64>]) -> StreamingQcow2Writer {
    StreamingQcow2Writer::new(n, ranges).unwrap()
}

fn metadata(w: &StreamingQcow2Writer) -> Vec<u8> {
    let mut out = Vec::new();
    w.write_header(&mut out);
    out
}

fn be64(b: &[u8], at: usize) -> u64 {
    let mut v = 0u64;
    for i in 0..8 {
        v = (v << 8) | b[at + i] as u64;
    }
    v
}

fn be32(b: &[u8], at: usize) -> u32 {
    let mut v = 0u32;
    for i in 0..4 {
        v = (v << 8) | b[at + i] as u32;
    }
    v
}

fn be16(b: &[u8], at: usize) -> u16 {
    ((b[at] as u16) << 8) | b[at + 1] as u16
}

#[test]
fn round_up_division() {
    assert_eq!(divide_and_round_up(0, CS), 0);
    assert_eq!(divide_and_round_up(1, CS), 1);
    assert_eq!(divide_and_round_up(CS, CS), 1);
    assert_eq!(divide_and_round_up(CS + 1, CS), 2);
    assert_eq!(divide_and_round_up(u64::MAX, CS), 1 << 48);
    assert_eq!(divide_and_round_up(7, 1), 7);
}

#[test]
fn empty_disk() {
    let w = plan(0, &[]);
    assert_eq!(w.total_guest_clusters(), 0);
    assert!(w.data_clusters().is_empty());
    // header, one refcount table cluster, one refcount block
    assert_eq!(w.first_data_cluster(), 3);
    assert_eq!(w.file_size(), 3 * CS);
    let m = metadata(&w);
    assert_eq!(m.len() as u64, 3 * CS);
    // refcount table: one block, right after the table
    assert_eq!(be64(&m, CS as usize), 2 * CS);
    // three clusters with refcount 1
    let blocks = 2 * CS as usize;
    assert_eq!(be16(&m, blocks), 1);
    assert_eq!(be16(&m, blocks + 4), 1);
    assert_eq!(be16(&m, blocks + 6), 0);
}

#[test]
fn single_range_of_one_cluster() {
    let w = plan(4 * CS, &[0..CS]);
    assert_eq!(w.data_clusters(), &vec![0u64]);
    let w = plan(4 * CS, &[2 * CS..3 * CS]);
    assert_eq!(w.data_clusters(), &vec![2u64]);
}

#[test]
fn adjacent_ranges_share_a_cluster_once() {
    let w = plan(4 * CS, &[0..100_000, 100_000..200_000]);
    assert_eq!(w.data_clusters(), &vec![0u64, 1, 2, 3]);
    let w = plan(4 * CS, &[10..20, 30..40]);
    assert_eq!(w.data_clusters(), &vec![0u64]);
}

#[test]
fn overlapping_ranges_are_refused() {
    let r = StreamingQcow2Writer::new(10 * CS, &[0..200_000, CS..300_000]);
    assert!(matches!(r, Err(PlanError::Unsorted)));
}

#[test]
fn unsorted_ranges_are_refused() {
    let r = StreamingQcow2Writer::new(10 * CS, &[2 * CS..3 * CS, 0..10]);
    assert!(matches!(r, Err(PlanError::Unsorted)));
}

#[test]
fn sorted_ranges_with_gaps_are_accepted() {
    let w = plan(10 * CS, &[0..10, 3 * CS..3 * CS + 1, 5 * CS + 7..7 * CS]);
    assert_eq!(w.data_clusters(), &vec![0u64, 3, 5, 6]);
}

#[test]
fn disk_beyond_l1_size_field_is_too_large() {
    let r = StreamingQcow2Writer::new(u64::MAX, &[]);
    assert!(matches!(r, Err(PlanError::TooLarge)));
}

#[test]
fn file_size_counts_metadata_and_data() {
    let n = 10 * 1024 * 1024;
    let w = plan(n, &whole_disk(n));
    assert_eq!(w.total_guest_clusters(), 160);
    assert_eq!(w.data_clusters().len(), 160);
    assert_eq!(w.first_data_cluster(), 5);
    assert_eq!(w.file_size(), CS * 165);
    assert_eq!(metadata(&w).len() as u64, CS * w.first_data_cluster());
}

#[test]
fn refcount_sizing_grows_with_the_image() {
    // 2^31 bytes of data: 32768 data clusters, so the refcount entries of all
    // clusters no longer fit in one block
    let n = 1u64 << 31;
    let w = plan(n, &whole_disk(n));
    assert_eq!(w.total_guest_clusters(), 32768);
    // header + 1 table + 2 blocks + 1 L1 + 4 L2
    assert_eq!(w.first_data_cluster(), 9);
    let m = metadata(&w);
    assert_eq!(be32(&m, 56), 1);
    assert_eq!(be64(&m, CS as usize), 2 * CS);
    assert_eq!(be64(&m, CS as usize + 8), 3 * CS);
    assert_eq!(be64(&m, CS as usize + 16), 0);
    let blocks = 2 * CS as usize;
    let total = 9 + 32768;
    let mut sum = 0u64;
    for i in 0..(2 * 32768) {
        let e = be16(&m, blocks + 2 * i);
        assert_eq!(e, if i < total { 1 } else { 0 });
        sum += e as u64;
    }
    assert_eq!(sum, total as u64);
}

#[test]
fn header_fields_are_big_endian() {
    let n = 0x0102_0304_0506;
    let w = plan(n, &[]);
    let m = metadata(&w);
    assert_eq!(&m[0..4], b"QFI\xFB");
    assert_eq!(be32(&m, 4), 2);
    assert_eq!(be64(&m, 8), 0);
    assert_eq!(be32(&m, 16), 0);
    assert_eq!(be32(&m, 20), 16);
    assert_eq!(be64(&m, 24), n);
    assert_eq!(&m[24..32], &[0, 0, 1, 2, 3, 4, 5, 6]);
    assert_eq!(be32(&m, 32), 0);
    // 16_909_061 guest clusters need 2065 L2 clusters, one L1 entry each
    assert_eq!(be32(&m, 36), 2065);
    // L1 table after header, refcount table and block
    assert_eq!(be64(&m, 40), 3 * CS);
    assert_eq!(be64(&m, 48), CS);
    assert_eq!(be32(&m, 56), 1);
    assert_eq!(be32(&m, 60), 0);
    assert_eq!(be64(&m, 64), 0);
    assert!(m[72..CS as usize].iter().all(|b| *b == 0));
}

#[test]
fn l1_entries_point_at_l2_clusters() {
    let n = 0x0102_0304_0506;
    let w = plan(n, &[]);
    let m = metadata(&w);
    let l1 = 3 * CS as usize;
    // one L1 cluster, then 2065 L2 clusters
    assert_eq!(be64(&m, l1), (4 * CS) | FLAG);
    assert_eq!(be64(&m, l1 + 8), (5 * CS) | FLAG);
    assert_eq!(be64(&m, l1 + 8 * 2064), ((4 + 2064) * CS) | FLAG);
    assert_eq!(be64(&m, l1 + 8 * 2065), 0);
    assert_eq!(w.first_data_cluster(), 4 + 2065);
}

#[test]
fn l2_entries_map_data_clusters_and_holes() {
    let w = plan(16 * CS, &[2 * CS..3 * CS + 10, 9 * CS..9 * CS + 1]);
    assert_eq!(w.data_clusters(), &vec![2u64, 3, 9]);
    assert_eq!(w.first_data_cluster(), 5);
    let m = metadata(&w);
    let l2 = 4 * CS as usize;
    for g in 0..8192usize {
        let e = be64(&m, l2 + 8 * g);
        let expected = match g {
            2 => (5 * CS) | FLAG,
            3 => (6 * CS) | FLAG,
            9 => (7 * CS) | FLAG,
            _ => 0,
        };
        assert_eq!(e, expected);
    }
    assert_eq!(m.len() as u64, 5 * CS);
}

#[test]
fn planning_twice_gives_identical_output() {
    let ranges = [CS..3 * CS, 5 * CS + 1..6 * CS];
    let a = plan(8 * CS, &ranges);
    let b = plan(8 * CS, &ranges);
    assert_eq!(a.data_clusters(), b.data_clusters());
    assert_eq!(a.file_size(), b.file_size());
    assert_eq!(metadata(&a), metadata(&b));
}

#[test]
fn data_clusters_ascend_within_the_disk() {
    let n = 20 * CS + 5;
    let w = plan(n, &[0..1, CS - 1..2 * CS, 7 * CS..9 * CS + 1, n - 1..n]);
    let d = w.data_clusters();
    assert_eq!(d, &vec![0u64, 1, 7, 8, 9, 20]);
    assert!(d.windows(2).all(|p| p[0] < p[1]));
    assert!(d.iter().all(|c| *c < w.total_guest_clusters()));
}

#[test]
fn source_offsets_of_data_clusters() {
    let w = plan(16 * CS, &[2 * CS..3 * CS, 9 * CS..9 * CS + 1]);
    assert_eq!(w.data_cluster_offset(0), 2 * CS);
    assert_eq!(w.data_cluster_offset(1), 9 * CS);
}

#[test]
fn progress_is_reported_at_interval_crossings() {
    let n = 1u64 << 30;
    let w = plan(n, &whole_disk(n));
    let first = w.first_data_cluster();
    let mut reports = Vec::new();
    for k in 0..w.data_clusters().len() {
        if let Some(b) = w.progress_after(k) {
            reports.push(b);
        }
    }
    assert_eq!(reports.len(), ((first + 16384) * CS / REPORT_INTERVAL_BYTES) as usize);
    let k = (REPORT_INTERVAL_BYTES / CS - first) as usize;
    assert_eq!(w.progress_after(k), Some((first + k as u64 + 1) * CS));
    assert_eq!(w.progress_after(0), None);
}

#[test]
fn short_reads_are_zero_filled() {
    let mut buf = vec![7u8; 10];
    zero_fill_cluster(&mut buf);
    assert_eq!(buf.len() as u64, CLUSTER_SIZE);
    assert!(buf[..10].iter().all(|b| *b == 7));
    assert!(buf[10..].iter().all(|b| *b == 0));
    let mut empty = Vec::new();
    zero_fill_cluster(&mut empty);
    assert_eq!(empty, vec![0u8; CS as usize]);
}

#[test]
fn extents_become_ranges() {
    assert_eq!(range_from_extent(10, 5), Some(10..15));
    assert_eq!(range_from_extent(10, 0), None);
    assert_eq!(range_from_extent(u64::MAX, 1), None);
    assert_eq!(whole_disk(0), Vec::<Range<u64>>::new());
    assert_eq!(whole_disk(9), vec![0..9]);
    assert!(ranges_well_formed(&[0..1, 5..9]));
    assert!(!ranges_well_formed(&[0..1, 5..5]));
}

#[test]
fn reading_the_image_returns_source_bytes() {
    let n = 6 * CS + 100;
    let source: Vec<u8> = (0..n).map(|i| (i % 251) as u8 + 1).collect();
    let w = plan(n, &[CS + 5..2 * CS, 6 * CS..n]);
    assert_eq!(w.data_clusters(), &vec![1u64, 6]);
    let mut image = metadata(&w);
    for k in 0..w.data_clusters().len() {
        let at = w.data_cluster_offset(k) as usize;
        let end = std::cmp::min(at + CS as usize, source.len());
        let mut buf = source[at..end].to_vec();
        zero_fill_cluster(&mut buf);
        image.extend_from_slice(&buf);
    }
    assert_eq!(image.len() as u64, w.file_size());
    let l2 = (w.first_data_cluster() - 1) as usize * CS as usize;
    for x in (0..n as usize).step_by(997).chain([CS as usize, 6 * CS as usize + 99]) {
        let g = x / CS as usize;
        let e = be64(&image, l2 + 8 * g);
        let byte = if e == 0 { 0 } else { image[(e & !FLAG) as usize + x % CS as usize] };
        let expected = if g == 1 || g == 6 { source[x] } else { 0 };
        assert_eq!(byte, expected);
    }
    // the last data cluster is zero-filled past the end of the source
    assert_eq!(image[image.len() - 1], 0);
}
