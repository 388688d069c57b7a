use distore::batch::{ceil_div, pack_batches};
use distore::codec::head_content;
use distore::extent::{assemble, disassemble, ordered_part_names, part_name};
use distore::FileEntry;

fn sample_bytes(n: usize) -> Vec<u8> {
    (0..n).map(|i| (i % 251) as u8).collect()
}

#[test]
fn split_then_assemble_is_identity() {
    for n in [0usize, 1, 9, 10, 11, 29, 30] {
        let data = sample_bytes(n);
        let parts = disassemble(&data, 10);
        let back = assemble(&parts);
        assert_eq!(back, data, "round trip failed for {} bytes", n);
    }
}

#[test]
fn split_sizes_and_count() {
    let data = sample_bytes(25);
    let parts = disassemble(&data, 10);
    assert_eq!(parts.len(), 3);
    assert_eq!(parts[0].len(), 10);
    assert_eq!(parts[1].len(), 10);
    assert_eq!(parts[2].len(), 5);
    assert!(disassemble(&Vec::new(), 10).is_empty());
}

#[test]
fn part_names_carry_the_numeric_index() {
    assert_eq!(part_name("f.bin", 0), "f.bin.part0");
    assert_eq!(part_name("f.bin", 10), "f.bin.part10");
}

#[test]
fn parts_are_ordered_by_full_numeric_index() {
    // Eleven parts listed in a directory's arbitrary order: ordering by the
    // last character would put part10 right after part1.
    let mut names: Vec<String> = (0..11).rev().map(|i| format!("f.bin.part{}", i)).collect();
    names.push("f.bin".to_string());
    names.push("other.part0".to_string());
    let ordered = ordered_part_names(&names, "f.bin").unwrap();
    let expected: Vec<String> = (0..11).map(|i| format!("f.bin.part{}", i)).collect();
    assert_eq!(ordered, expected);
}

#[test]
fn a_gap_in_the_parts_is_an_error() {
    // Part 1 is missing while part 3 exists: assembling must not silently
    // yield a truncated file.
    let names = vec![
        "f.part0".to_string(),
        "f.part3".to_string(),
    ];
    assert!(ordered_part_names(&names, "f").is_none());
}

#[test]
fn non_canonical_names_are_no_parts() {
    // Neither a non-numeric suffix nor a zero-padded numeral names an
    // extent, so none of these opens a gap.
    let names = vec![
        "f.part0".to_string(),
        "f.partx".to_string(),
        "f.part007".to_string(),
        "f.part".to_string(),
    ];
    let ordered = ordered_part_names(&names, "f").unwrap();
    assert_eq!(ordered, vec!["f.part0".to_string()]);
}

#[test]
fn no_parts_yield_an_empty_run() {
    let names = vec!["a".to_string(), "b".to_string()];
    assert_eq!(ordered_part_names(&names, "f"), Some(Vec::new()));
}

#[test]
fn upload_scenario_three_extents_one_batch() {
    // A 25 MB file with 10 MB extents: 3 extents, 1 batch, 1 record with
    // len=3 and no next, and downloading reproduces the bytes exactly.
    let mb = 1000 * 1000;
    let data = sample_bytes(25 * mb);
    let parts = disassemble(&data, 10 * mb);
    assert_eq!(parts.len(), 3);
    let batches = pack_batches(parts, 10);
    assert_eq!(batches.len(), 1);
    assert_eq!(ceil_div(3, 10), 1);
    let content = head_content("big.bin", data.len() as u64, 3, None);
    let entry = FileEntry::from_str(&content).unwrap();
    assert_eq!(entry.len, Some(3));
    assert_eq!(entry.next, None);
    let fetched: Vec<Vec<u8>> = batches.into_iter().flatten().collect();
    let back = assemble(&fetched);
    assert_eq!(back, data);
}
