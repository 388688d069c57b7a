use distore::batch::{ceil_div, pack_batches};

#[test]
fn packing_respects_the_limit_and_the_order() {
    let items: Vec<u32> = (0..25).collect();
    let batches = pack_batches(items, 10);
    assert_eq!(batches.len(), 3);
    assert_eq!(batches[0].len(), 10);
    assert_eq!(batches[1].len(), 10);
    assert_eq!(batches[2].len(), 5);
    let flat: Vec<u32> = batches.into_iter().flatten().collect();
    let expected: Vec<u32> = (0..25).collect();
    assert_eq!(flat, expected);
}

#[test]
fn packing_edge_counts() {
    assert_eq!(pack_batches(Vec::<u8>::new(), 10).len(), 0);
    assert_eq!(pack_batches(vec![1u8], 10).len(), 1);
    assert_eq!(pack_batches((0..10u8).collect::<Vec<_>>(), 10).len(), 1);
    assert_eq!(pack_batches((0..11u8).collect::<Vec<_>>(), 10).len(), 2);
}

#[test]
fn ceiling_division() {
    assert_eq!(ceil_div(0, 10), 0);
    assert_eq!(ceil_div(1, 10), 1);
    assert_eq!(ceil_div(10, 10), 1);
    assert_eq!(ceil_div(11, 10), 2);
    assert_eq!(ceil_div(25, 10), 3);
    assert_eq!(ceil_div(u64::MAX, 1), u64::MAX);
    assert_eq!(ceil_div(u64::MAX, u64::MAX), 1);
}
