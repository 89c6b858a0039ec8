use kv_router::protocols::LocalBlockHash;
use kv_router::segment_id::{SegmentBlockMapping, SegmentId, SegmentNamespace};

fn namespace(kv_dtype: &str, chunk_size: u32) -> SegmentNamespace {
    SegmentNamespace {
        model_hash: 7,
        model_revision: 1,
        tensor_parallel_rank: 2,
        pipeline_parallel_rank: 0,
        kv_layout_version: 1,
        kv_dtype: kv_dtype.to_string(),
        chunk_size,
        layer_group: 0,
    }
}

#[test]
fn canonical_identity_excludes_request_and_address_state() {
    let ns = SegmentNamespace {
        model_hash: 7,
        model_revision: 1,
        tensor_parallel_rank: 2,
        pipeline_parallel_rank: 0,
        kv_layout_version: 1,
        kv_dtype: "bf16".to_string(),
        chunk_size: 256,
        layer_group: 0,
    };
    let id = SegmentId::from_block_hash(ns, LocalBlockHash(0xab));
    assert_eq!(id.canonical(), "7:1:2:0:1:bf16:256:0:00000000000000ab");
}

#[test]
fn canonical_text_agrees_with_formatting() {
    let ns = SegmentNamespace {
        model_hash: u64::MAX,
        model_revision: u32::MAX,
        tensor_parallel_rank: 1234567890123,
        pipeline_parallel_rank: u16::MAX,
        kv_layout_version: 10,
        kv_dtype: "fp8:e4m3".to_string(),
        chunk_size: 100,
        layer_group: 99,
    };
    assert_eq!(
        ns.canonical(),
        "18446744073709551615:4294967295:1234567890123:65535:10:fp8:e4m3:100:99"
    );
    let id = SegmentId::from_block_hash(ns.clone(), LocalBlockHash(u64::MAX));
    assert_eq!(id.canonical(), format!("{}:ffffffffffffffff", ns.canonical()));
}

#[test]
fn different_segments_have_different_texts() {
    let a = SegmentId::from_block_hash(namespace("x:1", 2), LocalBlockHash(1));
    let b = SegmentId::from_block_hash(namespace("x", 12), LocalBlockHash(1));
    let c = SegmentId::from_block_hash(namespace("x:1", 2), LocalBlockHash(16));
    assert_ne!(a.canonical(), b.canonical());
    assert_ne!(a.canonical(), c.canonical());
    assert_eq!(a.canonical(), a.clone().canonical());
    assert_eq!(a, a.clone());
}

#[test]
fn mapping_names_the_blocks_of_a_segment() {
    let mapping = SegmentBlockMapping {
        segment_id: SegmentId::from_block_hash(namespace("bf16", 256), LocalBlockHash(3)),
        router_block_hashes: vec![1, 2],
    };
    assert_eq!(mapping.segment_id.token_chunk_hash, 3);
    assert_eq!(mapping.router_block_hashes, vec![1, 2]);
    assert_eq!(mapping.clone(), mapping);
}
