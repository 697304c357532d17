use cluster_compute::cache::{bytes_equal, CompileCache};
use cluster_compute::framing::{decode_length, encode_length};
use cluster_compute::job::{count_occurrences, plan_blocks, sum_counts, task_payload, PlanError};

#[test]
fn count_character_in_blob() {
    let data = task_payload(b'a', b"banana");
    assert_eq!(data, b"abanana".to_vec());
    let n = count_occurrences(&data[1..], data[0]);
    assert_eq!(n, 3);
    let result = encode_length(n);
    assert_eq!(decode_length(&result), 3);
    assert_eq!(sum_counts(&vec![result]), Some(3));
}

#[test]
fn count_edge_cases() {
    assert_eq!(count_occurrences(&[], b'a'), 0);
    assert_eq!(count_occurrences(b"aaaa", b'a'), 4);
    assert_eq!(count_occurrences(b"bbbb", b'a'), 0);
}

#[test]
fn parallel_counting_matches_whole_file() {
    let size: usize = 1 << 20;
    let file: Vec<u8> = (0..size).map(|i| ((i * 7 + i / 3) % 26) as u8 + b'a').collect();
    let plan = plan_blocks(size as u64, 4).unwrap();
    assert_eq!(plan.count, 4);
    assert_eq!(plan.block_size, 1 << 18);
    assert_eq!(plan.last_block_size, 1 << 18);
    let mut results = Vec::new();
    let mut offset = 0usize;
    for k in 0..plan.count {
        let len = if k + 1 == plan.count { plan.last_block_size } else { plan.block_size } as usize;
        let task = task_payload(b'e', &file[offset..offset + len]);
        offset += len;
        results.push(encode_length(count_occurrences(&task[1..], task[0])));
    }
    assert_eq!(offset, size);
    let whole = count_occurrences(&file, b'e');
    assert!(whole > 0);
    assert_eq!(sum_counts(&results), Some(whole));
}

#[test]
fn plan_uneven_blocks() {
    let p = plan_blocks(10, 3).unwrap();
    assert_eq!((p.count, p.block_size, p.last_block_size), (3, 3, 4));
    let p = plan_blocks(10, 100).unwrap();
    assert_eq!((p.count, p.block_size, p.last_block_size), (5, 2, 2));
    let p = plan_blocks(2, 1).unwrap();
    assert_eq!((p.count, p.block_size, p.last_block_size), (1, 2, 2));
}

#[test]
fn plan_errors() {
    assert_eq!(plan_blocks(1, 4).err(), Some(PlanError::TooSmall));
    assert_eq!(plan_blocks(0, 0).err(), Some(PlanError::TooSmall));
    assert_eq!(plan_blocks(100, 0).err(), Some(PlanError::NoBlocks));
}

#[test]
fn sum_rejects_bad_results() {
    assert_eq!(sum_counts(&vec![]), Some(0));
    assert_eq!(sum_counts(&vec![vec![1, 2, 3]]), None);
    assert_eq!(sum_counts(&vec![encode_length(1), vec![0; 9]]), None);
    assert_eq!(sum_counts(&vec![encode_length(u64::MAX), encode_length(1)]), None);
    assert_eq!(sum_counts(&vec![encode_length(u64::MAX - 1), encode_length(1)]), Some(u64::MAX));
}

#[test]
fn cache_lookup_insert_remove() {
    let mut c = CompileCache::new();
    assert_eq!(c.get(b"p"), None);
    c.insert(b"p", "./executable".to_string());
    c.insert(b"q", "./executable0".to_string());
    assert_eq!(c.get(b"p"), Some("./executable".to_string()));
    assert_eq!(c.get(b"q"), Some("./executable0".to_string()));
    c.insert(b"p", "./executable1".to_string());
    assert_eq!(c.get(b"p"), Some("./executable1".to_string()));
    assert_eq!(c.paths(), vec!["./executable0".to_string(), "./executable1".to_string()]);
    assert_eq!(c.remove(b"p"), Some("./executable1".to_string()));
    assert_eq!(c.get(b"p"), None);
    assert_eq!(c.remove(b"p"), None);
    assert_eq!(c.paths(), vec!["./executable0".to_string()]);
}

#[test]
fn byte_equality() {
    assert!(bytes_equal(b"abc", b"abc"));
    assert!(!bytes_equal(b"abc", b"abd"));
    assert!(!bytes_equal(b"abc", b"ab"));
    assert!(bytes_equal(b"", b""));
}
