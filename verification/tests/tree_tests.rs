use william3::chunks::{chunk_range, count_chunks};
use william3::reducer::{tree_hash, Operation, TreeReducer};
use william3::{Digest, Label};

/// A stand-in chunk hash: every byte of the label depends on the data, its
/// length and the root mark.
fn toy_chunk(data: &[u8], is_root: bool) -> Label {
    let mut state: u32 = 0x811c_9dc5 ^ (data.len() as u32) ^ if is_root { 0x8000_0000 } else { 0 };
    for b in data {
        state = (state ^ (*b as u32)).wrapping_mul(0x0100_0193);
    }
    let mut out = [0u8; 32];
    for o in out.iter_mut() {
        state = state.wrapping_mul(0x0100_0193).wrapping_add(0x9e37_79b9);
        *o = (state >> 24) as u8;
    }
    out
}

/// A stand-in combine, in the same way.
fn toy_inner(left: &Label, right: &Label, total_length: u64, is_root: bool) -> Label {
    let mut data = Vec::new();
    data.extend_from_slice(left);
    data.extend_from_slice(right);
    data.extend_from_slice(&total_length.to_le_bytes());
    data.push(0xff);
    toy_chunk(&data, is_root)
}

fn toy_chunk_entry(data: &[u8], is_root: bool, _: &(), out: &mut [u8; 32]) {
    *out = toy_chunk(data, is_root);
}

fn toy_inner_entry(l: &[u8; 32], r: &[u8; 32], n: u64, is_root: bool, _: &(), out: &mut [u8; 32]) {
    *out = toy_inner(l, r, n, is_root);
}

/// Runs the reducer over `data` with the stand-in operations and returns what
/// it asked for, in order, and the digest.
fn run(data: &[u8]) -> (Vec<Operation>, Digest) {
    let mut reducer = TreeReducer::new(data.len());
    let mut asked = Vec::new();
    loop {
        let op = reducer.request();
        match op {
            Operation::HashChunk { start, end, is_root } => {
                asked.push(op);
                reducer.advance(toy_chunk(&data[start..end], is_root));
            }
            Operation::HashInner { left, right, total_length, is_root } => {
                asked.push(op);
                reducer.advance(toy_inner(&left, &right, total_length, is_root));
            }
            Operation::Done { digest } => return (asked, digest),
        }
    }
}

fn ascending(n: usize) -> Vec<u8> {
    (0..n).map(|i| (i % 251) as u8).collect()
}

#[test]
fn chunk_counts() {
    assert_eq!(count_chunks(0), 1);
    assert_eq!(count_chunks(1), 1);
    assert_eq!(count_chunks(1023), 1);
    assert_eq!(count_chunks(1024), 1);
    assert_eq!(count_chunks(1025), 2);
    assert_eq!(count_chunks(1960), 2);
    assert_eq!(count_chunks(2048), 2);
    assert_eq!(count_chunks(2049), 3);
    assert_eq!(count_chunks(3072), 3);
    assert_eq!(count_chunks(usize::MAX), usize::MAX / 1024 + 1);
}

#[test]
fn chunk_ranges() {
    assert_eq!(chunk_range(0, 0), Some((0, 0)));
    assert_eq!(chunk_range(0, 1), None);
    assert_eq!(chunk_range(5, 0), Some((0, 5)));
    assert_eq!(chunk_range(1024, 0), Some((0, 1024)));
    assert_eq!(chunk_range(1024, 1), None);
    assert_eq!(chunk_range(1025, 0), Some((0, 1024)));
    assert_eq!(chunk_range(1025, 1), Some((1024, 1025)));
    assert_eq!(chunk_range(1025, 2), None);
    assert_eq!(chunk_range(1960, 1), Some((1024, 1960)));
    assert_eq!(chunk_range(3072, 2), Some((2048, 3072)));
    assert_eq!(chunk_range(3073, 3), Some((3072, 3073)));
    assert_eq!(chunk_range(usize::MAX, usize::MAX / 1024), Some((usize::MAX - 1023, usize::MAX)));
    assert_eq!(chunk_range(usize::MAX, usize::MAX / 1024 + 1), None);
    assert_eq!(chunk_range(10, usize::MAX), None);
}

#[test]
fn chunks_partition_the_message() {
    for len in [0usize, 1, 1023, 1024, 1025, 2047, 2048, 2049, 5000, 10240] {
        let mut at = 0usize;
        for index in 0..count_chunks(len) {
            let (start, end) = chunk_range(len, index).unwrap();
            assert_eq!(start, at);
            assert!(end - start <= 1024);
            if index + 1 < count_chunks(len) {
                assert_eq!(end - start, 1024);
            } else if len > 0 {
                assert!(end > start);
            }
            at = end;
        }
        assert_eq!(at, len);
        assert_eq!(chunk_range(len, count_chunks(len)), None);
    }
}

#[test]
fn empty_message_is_one_empty_chunk_marked_as_root() {
    let mut reducer = TreeReducer::new(0);
    assert!(!reducer.is_finished());
    assert_eq!(reducer.remaining(), 1);
    assert_eq!(reducer.digest(), None);
    assert_eq!(reducer.request(), Operation::HashChunk { start: 0, end: 0, is_root: true });
    let label = toy_chunk(&[], true);
    reducer.advance(label);
    assert!(reducer.is_finished());
    assert_eq!(reducer.remaining(), 0);
    assert_eq!(reducer.request(), Operation::Done { digest: Digest::from_bytes(label) });
    assert_eq!(reducer.digest(), Some(Digest::from_bytes(label)));
}

#[test]
fn message_of_one_chunk_is_hashed_once_as_the_root() {
    for len in [1usize, 5, 1023, 1024] {
        let data = ascending(len);
        let (asked, digest) = run(&data);
        assert_eq!(asked, vec![Operation::HashChunk { start: 0, end: len, is_root: true }]);
        assert_eq!(digest, Digest::from_bytes(toy_chunk(&data, true)));
    }
}

#[test]
fn exactly_1024_bytes_take_the_single_chunk_path_and_1025_do_not() {
    let data = vec![b'x'; 1025];
    let (asked, at) = run(&data[..1024]);
    assert_eq!(asked.len(), 1);
    assert_eq!(asked[0], Operation::HashChunk { start: 0, end: 1024, is_root: true });
    let (asked, past) = run(&data);
    let left = toy_chunk(&data[..1024], false);
    let right = toy_chunk(&data[1024..], false);
    assert_eq!(
        asked,
        vec![
            Operation::HashChunk { start: 0, end: 1024, is_root: false },
            Operation::HashChunk { start: 1024, end: 1025, is_root: false },
            Operation::HashInner { left, right, total_length: 1025, is_root: true },
        ]
    );
    assert_eq!(past, Digest::from_bytes(toy_inner(&left, &right, 1025, true)));
    assert_ne!(at, past);
}

#[test]
fn two_chunks_are_combined_once_as_the_root() {
    let text = "The quick brown fox jumps over the lazy dog. This is a longer text that will span multiple chunks.".repeat(20);
    let data = text.as_bytes();
    assert_eq!(data.len(), 1960);
    let left = toy_chunk(&data[0..1024], false);
    let right = toy_chunk(&data[1024..1960], false);
    let root = toy_inner(&left, &right, 1960, true);
    let (asked, digest) = run(data);
    assert_eq!(
        asked,
        vec![
            Operation::HashChunk { start: 0, end: 1024, is_root: false },
            Operation::HashChunk { start: 1024, end: 1960, is_root: false },
            Operation::HashInner { left, right, total_length: 1960, is_root: true },
        ]
    );
    assert_eq!(digest.into_bytes(), root);
}

#[test]
fn three_chunks_are_folded_from_the_left() {
    let data = ascending(3000);
    let c0 = toy_chunk(&data[0..1024], false);
    let c1 = toy_chunk(&data[1024..2048], false);
    let c2 = toy_chunk(&data[2048..3000], false);
    let first = toy_inner(&c0, &c1, 3000, false);
    let root = toy_inner(&first, &c2, 3000, true);
    let (asked, digest) = run(&data);
    assert_eq!(
        asked,
        vec![
            Operation::HashChunk { start: 0, end: 1024, is_root: false },
            Operation::HashChunk { start: 1024, end: 2048, is_root: false },
            Operation::HashInner { left: c0, right: c1, total_length: 3000, is_root: false },
            Operation::HashChunk { start: 2048, end: 3000, is_root: false },
            Operation::HashInner { left: first, right: c2, total_length: 3000, is_root: true },
        ]
    );
    assert_eq!(digest, Digest::from_bytes(root));
}

#[test]
fn every_combine_is_given_the_length_of_the_whole_message() {
    for len in [1025usize, 2048, 2049, 4096, 4097, 10000] {
        let data = ascending(len);
        let (asked, _) = run(&data);
        let mut combines = 0;
        for op in asked.iter() {
            if let Operation::HashInner { total_length, .. } = op {
                assert_eq!(*total_length, len as u64);
                combines += 1;
            }
        }
        assert_eq!(combines, count_chunks(len) - 1);
    }
}

#[test]
fn same_labels_and_another_length_make_another_combine() {
    let label = [9u8; 32];
    let mut asked = Vec::new();
    for len in [1500usize, 1600] {
        let mut reducer = TreeReducer::new(len);
        reducer.advance(label);
        reducer.advance(label);
        asked.push(reducer.request());
    }
    assert_eq!(
        asked[0],
        Operation::HashInner { left: label, right: label, total_length: 1500, is_root: true }
    );
    assert_eq!(
        asked[1],
        Operation::HashInner { left: label, right: label, total_length: 1600, is_root: true }
    );
    assert_ne!(asked[0], asked[1]);
    assert_ne!(toy_inner(&label, &label, 1500, true), toy_inner(&label, &label, 1600, true));
}

#[test]
fn exactly_one_operation_is_marked_as_root_and_it_is_the_last() {
    for len in [0usize, 1, 1024, 1025, 2048, 2049, 3072, 3073, 7000, 16384] {
        let data = ascending(len);
        let (asked, _) = run(&data);
        let marks: Vec<bool> = asked
            .iter()
            .map(|op| match op {
                Operation::HashChunk { is_root, .. } => *is_root,
                Operation::HashInner { is_root, .. } => *is_root,
                Operation::Done { .. } => false,
            })
            .collect();
        assert_eq!(marks.iter().filter(|m| **m).count(), 1, "{} bytes", len);
        assert_eq!(marks.last(), Some(&true));
        assert_eq!(asked.len(), 2 * count_chunks(len) - 1);
    }
}

#[test]
fn remaining_counts_down_to_zero() {
    let data = ascending(4097);
    let mut reducer = TreeReducer::new(data.len());
    assert_eq!(reducer.total_len(), 4097);
    let mut left = reducer.remaining();
    assert_eq!(left, 9);
    while !reducer.is_finished() {
        assert_eq!(reducer.digest(), None);
        match reducer.request() {
            Operation::HashChunk { start, end, is_root } => {
                reducer.advance(toy_chunk(&data[start..end], is_root))
            }
            Operation::HashInner { left, right, total_length, is_root } => {
                reducer.advance(toy_inner(&left, &right, total_length, is_root))
            }
            Operation::Done { .. } => unreachable!(),
        }
        assert_eq!(reducer.remaining() + 1, left);
        left -= 1;
    }
    assert_eq!(left, 0);
    assert!(reducer.digest().is_some());
}

#[test]
fn a_finished_reducer_ignores_further_labels() {
    let mut reducer = TreeReducer::new(3);
    reducer.advance([1u8; 32]);
    assert!(reducer.is_finished());
    let digest = reducer.digest();
    assert_eq!(digest, Some(Digest::from_bytes([1u8; 32])));
    reducer.advance([2u8; 32]);
    assert!(reducer.is_finished());
    assert_eq!(reducer.digest(), digest);
    assert_eq!(reducer.remaining(), 0);
}

#[test]
fn the_same_message_gives_the_same_operations_and_digest() {
    let data = ascending(5555);
    let (asked_a, digest_a) = run(&data);
    let (asked_b, digest_b) = run(&data.clone());
    assert_eq!(asked_a, asked_b);
    assert_eq!(digest_a, digest_b);
}

#[test]
fn agrees_with_the_tree_of_bab_rs_up_to_two_chunks() {
    let instantiation = bab_rs::generic::BabInstantiation::<32, 1024, (), ()> {
        hash_chunk: toy_chunk_entry,
        hash_inner: toy_inner_entry,
        hash_chunk_context: (),
        hash_inner_context: (),
    };
    let data = ascending(2048);
    for len in [0usize, 1, 2, 64, 1000, 1023, 1024, 1025, 1026, 1500, 1960, 2047, 2048] {
        let mut expected = bab_rs::generic::BabDigest::<32>::default();
        bab_rs::generic::batch_hash(&instantiation, &data[..len], &mut expected);
        let (_, digest) = run(&data[..len]);
        assert_eq!(digest.as_bytes(), expected.as_bytes(), "{} bytes", len);
    }
}

#[test]
fn tree_hash_of_one_chunk_is_its_root_chunk_hash() {
    for len in [0usize, 1, 5, 1023, 1024] {
        let data = ascending(len);
        let digest = tree_hash(&data, toy_chunk, toy_inner);
        assert_eq!(digest.into_bytes(), toy_chunk(&data, true));
    }
}

#[test]
fn tree_hash_of_two_chunks_is_one_root_combine() {
    let text = "The quick brown fox jumps over the lazy dog. This is a longer text that will span multiple chunks.".repeat(20);
    let data = text.as_bytes();
    let chunk1 = &data[0..1024];
    let chunk2 = &data[1024..1960];
    let root = toy_inner(&toy_chunk(chunk1, false), &toy_chunk(chunk2, false), 1960, true);
    assert_eq!(tree_hash(data, toy_chunk, toy_inner).into_bytes(), root);
}

#[test]
fn tree_hash_hands_every_operation_to_the_functions_given() {
    let calls = std::cell::RefCell::new(Vec::new());
    let data = ascending(2500);
    let digest = tree_hash(
        &data,
        |chunk: &[u8], is_root: bool| {
            calls.borrow_mut().push(format!("chunk {} {}", chunk.len(), is_root));
            toy_chunk(chunk, is_root)
        },
        |left: &Label, right: &Label, total_length: u64, is_root: bool| {
            calls.borrow_mut().push(format!("inner {} {}", total_length, is_root));
            toy_inner(left, right, total_length, is_root)
        },
    );
    assert_eq!(
        calls.into_inner(),
        vec![
            "chunk 1024 false",
            "chunk 1024 false",
            "inner 2500 false",
            "chunk 452 false",
            "inner 2500 true",
        ]
    );
    let (_, expected) = run(&data);
    assert_eq!(digest, expected);
}

#[test]
fn tree_hash_is_what_the_reducer_yields_step_by_step() {
    for len in [0usize, 1, 1024, 1025, 2048, 2049, 3072, 3073, 4097, 9000] {
        let data = ascending(len);
        let (_, expected) = run(&data);
        assert_eq!(tree_hash(&data, toy_chunk, toy_inner), expected, "{} bytes", len);
        assert_eq!(tree_hash(&data, toy_chunk, toy_inner), tree_hash(&data, toy_chunk, toy_inner));
    }
}

#[test]
fn tree_hash_binds_the_length_of_the_message() {
    // the same two labels under two lengths: only the length handed to the
    // combine differs, and with it the digest
    let constant = |_: &[u8], _: bool| -> Label { [9u8; 32] };
    let a = tree_hash(&ascending(1500), constant, toy_inner);
    let b = tree_hash(&ascending(1600), constant, toy_inner);
    assert_eq!(a.into_bytes(), toy_inner(&[9u8; 32], &[9u8; 32], 1500, true));
    assert_eq!(b.into_bytes(), toy_inner(&[9u8; 32], &[9u8; 32], 1600, true));
    assert_ne!(a, b);
}
