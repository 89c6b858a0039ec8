use kv_router::chunks::{
    chunk_descriptors, chunk_precedes, clone_keys, copy_tokens, describe_chunks, holds_key,
    unique_chunk_refs, ChunkKey,
};
use kv_router::protocols::{compute_block_hash_for_seq, LocalBlockHash, BLOCK_HASH_SEED};
use std::sync::Arc;

fn key(hash: u64) -> ChunkKey {
    ("model".to_string(), hash)
}

#[test]
fn chunk_identity_does_not_include_parent_sequence() {
    let first = vec![1u32; 4];
    let mut second_request = first.clone();
    second_request.extend([2u32; 4]);
    let first_chunks = chunk_descriptors("model", &first, 4);
    let second_chunks = chunk_descriptors("model", &second_request, 4);
    assert_eq!(first_chunks[0].0, second_chunks[0].0);
    assert_ne!(first_chunks[0].0, second_chunks[1].0);
}

#[test]
fn chunk_descriptor_contains_prefix_and_target_range() {
    let chunks = chunk_descriptors("model", &[1, 2, 3, 4, 5, 6], 2);
    assert_eq!(&**chunks[0].1.prefix_tokens, &[1, 2, 3, 4, 5, 6]);
    assert_eq!(&**chunks[1].1.prefix_tokens, &[1, 2, 3, 4, 5, 6]);
    assert_eq!(&**chunks[2].1.prefix_tokens, &[1, 2, 3, 4, 5, 6]);
    assert_eq!((chunks[0].1.start_chunk, chunks[0].1.end_chunk), (0, 1));
    assert_eq!((chunks[1].1.start_chunk, chunks[1].1.end_chunk), (1, 2));
    assert_eq!((chunks[2].1.start_chunk, chunks[2].1.end_chunk), (2, 3));
}

#[test]
fn descriptors_share_prefix_storage() {
    let chunks = chunk_descriptors("model", &[1, 2, 3, 4], 2);
    assert!(Arc::ptr_eq(&chunks[0].1.prefix_tokens, &chunks[1].1.prefix_tokens));
}

#[test]
fn chunk_hashes_are_digests_of_little_endian_tokens() {
    let tokens: [u32; 5] = [1, 0x0102_0304, 7, u32::MAX, 9];
    let hashes = compute_block_hash_for_seq(&tokens, 2);
    let mut bytes: Vec<u8> = Vec::new();
    for token in &tokens[0..2] {
        bytes.extend(token.to_le_bytes());
    }
    assert_eq!(hashes.len(), 2);
    assert_eq!(
        hashes[0],
        LocalBlockHash(xxhash_rust::xxh3::xxh3_64_with_seed(&bytes, BLOCK_HASH_SEED))
    );
    assert_ne!(hashes[0], hashes[1]);
}

#[test]
fn incomplete_chunks_are_left_out() {
    assert!(chunk_descriptors("model", &[1, 2, 3], 4).is_empty());
    assert_eq!(chunk_descriptors("model", &[1, 2, 3, 4, 5], 2).len(), 2);
    assert!(chunk_descriptors("model", &[], 2).is_empty());
}

#[test]
fn descriptions_stop_at_the_shorter_of_chunks_and_hashes() {
    let hashes = vec![LocalBlockHash(5)];
    let chunks = describe_chunks("m", &[1, 2, 3, 4], 2, &hashes);
    assert_eq!(chunks.len(), 1);
    assert_eq!(chunks[0].0, ("m".to_string(), 5));
    let hashes = vec![LocalBlockHash(5), LocalBlockHash(6), LocalBlockHash(7)];
    assert_eq!(describe_chunks("m", &[1, 2, 3, 4], 2, &hashes).len(), 2);
}

#[test]
fn repeated_chunks_count_once_within_the_limit() {
    let chunks = vec![key(1), key(2), key(1), key(3)];
    let unique: Vec<u64> = unique_chunk_refs(&chunks, 4).iter().map(|chunk| chunk.1).collect();
    assert_eq!(unique, vec![1, 2, 3]);
    let unique: Vec<u64> = unique_chunk_refs(&chunks, 3).iter().map(|chunk| chunk.1).collect();
    assert_eq!(unique, vec![1, 2]);
    assert!(unique_chunk_refs(&chunks, 0).is_empty());
}

#[test]
fn chunks_are_ordered_by_model_then_hash() {
    assert!(chunk_precedes(&("a".to_string(), 9), &("b".to_string(), 1)));
    assert!(chunk_precedes(&("a".to_string(), 1), &("a".to_string(), 2)));
    assert!(!chunk_precedes(&("a".to_string(), 2), &("a".to_string(), 2)));
    assert!(chunk_precedes(&("a".to_string(), 2), &("aa".to_string(), 0)));
}

#[test]
fn copies_are_bounded() {
    let chunks = vec![key(1), key(2)];
    assert_eq!(clone_keys(&chunks, 1), vec![key(1)]);
    assert_eq!(clone_keys(&chunks, 9), chunks);
    assert!(holds_key(&chunks, &key(2)));
    assert!(!holds_key(&chunks, &key(3)));
    assert_eq!(copy_tokens(&[4, 5, 6], 2), vec![4, 5]);
}
