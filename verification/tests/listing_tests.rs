use distore::codec::{head_content, tail_content};
use distore::listing::{list_records, page_advance, StoreMessage};
use distore::TransferError;

fn msg(content: String, id: u64) -> StoreMessage {
    StoreMessage { content, id }
}

#[test]
fn listing_keeps_only_marked_heads() {
    let msgs = vec![
        // A chain head: listed.
        msg(head_content("a.bin", 10, 1, None), 1),
        // A continuation record has no marker: skipped.
        msg(tail_content(Some(9)), 2),
        // Someone's chatter: skipped.
        msg("hello".to_string(), 3),
        // A message without the marker, even if it parses: skipped.
        msg("name=x\nsize=1\nlen=1\n".to_string(), 4),
        // Marked but without a name (no head), even if it parses: skipped.
        msg(head_content("b", 1, 1, None).replace("name=b\n", ""), 5),
        // A second head: listed.
        msg(head_content("c.bin", 20, 2, Some(8)), 6),
    ];
    let entries = list_records(&msgs).unwrap();
    assert_eq!(entries.len(), 2);
    assert_eq!(entries[0].0.name, Some("a.bin".to_string()));
    assert_eq!(entries[0].0.size, Some(10));
    assert_eq!(entries[0].1, 1);
    assert_eq!(entries[1].0.name, Some("c.bin".to_string()));
    assert_eq!(entries[1].1, 6);
}

#[test]
fn listing_surfaces_a_malformed_marked_record() {
    let broken =
        "### This message is generated by Distore. Do not edit this message.\nsize\n".to_string();
    let msgs = vec![msg(broken, 1)];
    match list_records(&msgs) {
        Err(TransferError::MalformedRecord(_)) => {}
        _ => panic!("expected a MalformedRecord error"),
    }
}

#[test]
fn listing_requires_a_size_beside_a_name() {
    let content = "### This message is generated by Distore. Do not edit this message.\nname=x\n";
    let msgs = vec![msg(content.to_string(), 1)];
    match list_records(&msgs) {
        Err(TransferError::InvalidRecord) => {}
        _ => panic!("expected an InvalidRecord error"),
    }
}

#[test]
fn pagination_advances_past_the_last_seen_id() {
    let mut history: Vec<StoreMessage> = Vec::new();
    let page1 = vec![msg("a".to_string(), 30), msg("b".to_string(), 20)];
    let cursor = page_advance(&mut history, page1);
    assert_eq!(cursor, Some(20));
    assert_eq!(history.len(), 2);

    let cursor = page_advance(&mut history, Vec::new());
    assert_eq!(cursor, None);
    assert_eq!(history.len(), 2);
}
