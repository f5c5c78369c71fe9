use wikipedia_sz_bot::batch::{batch, count_batches, end_of_batch};

#[test]
fn takes_batches_as_chunks_do() {
    let items: Vec<u64> = (0..7).collect();
    for size in [1, 2, 3, 7, 8] {
        let mut at = 0;
        let mut parts: Vec<&[u64]> = Vec::new();
        while at < items.len() {
            parts.push(batch(&items, at, size));
            at = end_of_batch(at, size, items.len());
        }
        assert_eq!(parts, items.chunks(size).collect::<Vec<_>>());
        assert_eq!(count_batches(items.len(), size), parts.len());
    }
    assert!(batch(&items, 7, 3).is_empty());
    assert_eq!(end_of_batch(3, usize::MAX, 7), 7);
    assert_eq!(count_batches(0, 50), 0);
    assert_eq!(count_batches(1048, 50), 21);
    assert_eq!(count_batches(usize::MAX, 1), usize::MAX);
}
