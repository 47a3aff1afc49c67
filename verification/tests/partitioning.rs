use mirror_copy::partition::WorkChunk;
use mirror_copy::partition::chunk_size;
use mirror_copy::partition::partition;

// Every index in 0..file_count lies in exactly one chunk, and the
// chunk count stays within the worker count.
fn assert_total_cover(chunks: &[WorkChunk], file_count: usize, workers: usize) {
    assert!(chunks.len() <= workers);
    for j in 0..file_count {
        let holders = chunks.iter().filter(|c| c.start <= j && j < c.end).count();
        assert_eq!(holders, 1, "index {} held by {} chunks", j, holders);
    }
    for c in chunks {
        assert!(c.start < c.end && c.end <= file_count);
    }
}

#[test]
fn chunk_size_divides_exactly() {
    assert_eq!(chunk_size(10, 5), 2);
    assert_eq!(chunk_size(0, 3), 0);
}

#[test]
fn chunk_size_rounds_up() {
    assert_eq!(chunk_size(10, 3), 4);
    assert_eq!(chunk_size(1, 4), 1);
}

#[test]
fn partition_exact_division() {
    let chunks = partition(10, 5);
    assert_eq!(chunks.len(), 5);
    assert_eq!(chunks[0], WorkChunk { start: 0, end: 2 });
    assert_eq!(chunks[4], WorkChunk { start: 8, end: 10 });
    assert_total_cover(&chunks, 10, 5);
}

#[test]
fn partition_with_remainder() {
    let chunks = partition(10, 3);
    assert_eq!(chunks.len(), 3);
    assert_eq!(chunks[0], WorkChunk { start: 0, end: 4 });
    assert_eq!(chunks[1], WorkChunk { start: 4, end: 8 });
    assert_eq!(chunks[2], WorkChunk { start: 8, end: 10 });
    assert_total_cover(&chunks, 10, 3);
}

#[test]
fn partition_no_files_no_chunks() {
    let chunks = partition(0, 4);
    assert!(chunks.is_empty());
}

#[test]
fn partition_fewer_files_than_workers() {
    let chunks = partition(2, 5);
    assert_eq!(chunks.len(), 2);
    assert_total_cover(&chunks, 2, 5);
}

#[test]
fn partition_single_worker_takes_all() {
    let chunks = partition(7, 1);
    assert_eq!(chunks.len(), 1);
    assert_eq!(chunks[0], WorkChunk { start: 0, end: 7 });
    assert_total_cover(&chunks, 7, 1);
}

#[test]
fn partition_large_mixed_cases() {
    for &(f, n) in &[(1usize, 1usize), (3, 2), (17, 4), (100, 7), (5, 5), (6, 4)] {
        assert_total_cover(&partition(f, n), f, n);
    }
}
