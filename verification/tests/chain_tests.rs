use std::collections::HashMap;

use distore::batch::pack_batches;
use distore::chain::{begin_walk, record_contents};
use distore::codec::head_content;
use distore::extent::{assemble, disassemble};
use distore::{FileEntry, TransferError};

#[test]
fn edit_pass_contents_link_the_chain() {
    let ids = vec![100u64, 200, 300];
    let contents = record_contents(&ids, "f.bin", 25, 3);
    assert_eq!(contents.len(), 3);
    let head = FileEntry::from_str(&contents[0]).unwrap();
    assert_eq!(head.name, Some("f.bin".to_string()));
    assert_eq!(head.size, Some(25));
    assert_eq!(head.len, Some(3));
    assert_eq!(head.next, Some(200));
    let mid = FileEntry::from_str(&contents[1]).unwrap();
    assert!(mid.name.is_none());
    assert_eq!(mid.next, Some(300));
    let tail = FileEntry::from_str(&contents[2]).unwrap();
    assert!(tail.name.is_none());
    assert_eq!(tail.next, None);
}

#[test]
fn single_record_chain_has_no_next() {
    let contents = record_contents(&vec![7u64], "a", 1, 1);
    assert_eq!(contents.len(), 1);
    let head = FileEntry::from_str(&contents[0]).unwrap();
    assert_eq!(head.next, None);
}

#[test]
fn walk_requires_a_valid_head() {
    let w = begin_walk(&head_content("f", 10, 2, None)).unwrap();
    assert_eq!(w.name, "f");
    assert_eq!(w.total_size, 10);
    assert_eq!(w.extent_count, 2);
    assert_eq!(w.consumed, 0);
    assert_eq!(w.next, None);

    // A continuation record is no valid head.
    match begin_walk("next=5") {
        Err(TransferError::InvalidRecord) => {}
        _ => panic!("expected an InvalidRecord error"),
    }
    // Malformed content is reported as such.
    match begin_walk("name=a\nsize") {
        Err(TransferError::MalformedRecord(_)) => {}
        _ => panic!("expected a MalformedRecord error"),
    }
}

#[test]
fn walk_rejects_a_chain_that_ends_early() {
    let mut w = begin_walk(&head_content("f", 50, 5, None)).unwrap();
    w.consume(3);
    match w.finish() {
        Err(TransferError::InvalidRecord) => {}
        _ => panic!("a chain that ended early must not succeed"),
    }
}

#[test]
fn upload_then_download_reproduces_the_bytes() {
    // 95 bytes, 10-byte extents, 4 extents per record: 10 extents in 3
    // records, chained head -> 2 -> 3.
    let data: Vec<u8> = (0..95u8).collect();
    let extents = disassemble(&data, 10);
    let extent_count = extents.len();
    assert_eq!(extent_count, 10);
    let batches = pack_batches(extents, 4);
    assert_eq!(batches.len(), 3);

    // Create one record per batch, then the edit pass writes the chain.
    let ids: Vec<u64> = (1..=batches.len() as u64).collect();
    let mut store: HashMap<u64, (String, Vec<Vec<u8>>)> = HashMap::new();
    for (id, batch) in ids.iter().zip(batches.into_iter()) {
        store.insert(*id, (String::from("tmp"), batch));
    }
    let contents = record_contents(&ids, "f.bin", data.len() as u64, extent_count);
    for (id, content) in ids.iter().zip(contents.into_iter()) {
        store.get_mut(id).unwrap().0 = content;
    }

    // Download: walk the chain from the head.
    let mut fetched: Vec<Vec<u8>> = Vec::new();
    let head = &store[&1];
    let mut w = begin_walk(&head.0).unwrap();
    assert_eq!(w.total_size, 95);
    assert_eq!(w.extent_count, 10);
    let mut attachments = head.1.clone();
    loop {
        let n = attachments.len();
        fetched.append(&mut attachments);
        w.consume(n);
        match w.next {
            Some(id) => {
                let record = &store[&id];
                w.follow(&record.0).unwrap();
                attachments = record.1.clone();
            }
            None => break,
        }
    }
    w.finish().unwrap();
    assert_eq!(assemble(&fetched), data);
}
