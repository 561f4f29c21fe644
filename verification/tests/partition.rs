use loadouts::partition::chunk_size;
use loadouts::partition::partition;
use loadouts::partition::Chunk;
use loadouts::partition::NUM_WORKERS;

fn check_cover(total: u64, workers: usize) {
    let chunks = partition(total, workers);
    assert_eq!(chunks.len(), workers);
    let size = chunk_size(total, workers);
    let mut next: u64 = 0;
    let mut sum: u64 = 0;
    for chunk in chunks.iter() {
        assert_eq!(chunk.start, next);
        assert!(chunk.len <= size);
        next = chunk.start + chunk.len;
        sum += chunk.len;
    }
    assert_eq!(next, total);
    assert_eq!(sum, total);
    // Only the last worker with any work may have less than a full chunk.
    let active: Vec<&Chunk> = chunks.iter().filter(|c| c.len > 0).collect();
    for chunk in active.iter().rev().skip(1) {
        assert_eq!(chunk.len, size);
    }
}

#[test]
fn chunk_size_rounds_up() {
    assert_eq!(chunk_size(10, 3), 4);
    assert_eq!(chunk_size(9, 3), 3);
    assert_eq!(chunk_size(0, 3), 0);
    assert_eq!(chunk_size(1, 192), 1);
    assert_eq!(chunk_size(201_553_920_000, 192), 1_049_760_000);
    assert_eq!(chunk_size(u64::MAX, 1), u64::MAX);
    assert_eq!(chunk_size(u64::MAX, 2), 1 << 63);
}

#[test]
fn ten_over_three() {
    let chunks = partition(10, 3);
    assert_eq!(chunks, vec![
        Chunk { start: 0, len: 4 },
        Chunk { start: 4, len: 4 },
        Chunk { start: 8, len: 2 },
    ]);
}

#[test]
fn fewer_ordinals_than_workers() {
    let chunks = partition(2, 5);
    assert_eq!(chunks, vec![
        Chunk { start: 0, len: 1 },
        Chunk { start: 1, len: 1 },
        Chunk { start: 2, len: 0 },
        Chunk { start: 2, len: 0 },
        Chunk { start: 2, len: 0 },
    ]);
}

#[test]
fn some_workers_idle_when_chunks_round_up() {
    // A chunk of 3 for each of the first three workers leaves nothing for the fourth.
    let chunks = partition(9, 4);
    assert_eq!(chunks, vec![
        Chunk { start: 0, len: 3 },
        Chunk { start: 3, len: 3 },
        Chunk { start: 6, len: 3 },
        Chunk { start: 9, len: 0 },
    ]);
}

#[test]
fn nothing_to_split() {
    let chunks = partition(0, 3);
    assert_eq!(chunks, vec![Chunk { start: 0, len: 0 }; 3]);
}

#[test]
fn chunks_sum_to_the_total_without_overlap() {
    for total in [0u64, 1, 2, 9, 10, 191, 192, 193, 1000, 12_345, 201_553_920_000, u64::MAX] {
        for workers in [1usize, 2, 3, 7, 64, NUM_WORKERS, 1000] {
            check_cover(total, workers);
        }
    }
}

#[test]
fn the_stock_search_keeps_every_worker_busy() {
    let chunks = partition(201_553_920_000, NUM_WORKERS);
    assert_eq!(NUM_WORKERS, 192);
    assert!(chunks.iter().all(|c| c.len == 1_049_760_000));
}
