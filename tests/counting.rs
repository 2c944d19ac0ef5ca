use region_scanner::{
    classify_status, count_blocks, is_admitted, BlockCounts, ChunkContents,
    ChunkStatus, ProtoOption,
};

/// A chunk spanning levels `0..16` with every block of level 0 named `name`
/// and no block elsewhere.
fn floor_chunk(status: &str, name: &str) -> ChunkContents {
    let mut blocks = vec![None; 256 * 16];
    for b in blocks.iter_mut().take(256) {
        *b = Some(name.to_string());
    }
    ChunkContents { status: status.to_string(), y_start: 0, y_end: 16, blocks }
}

#[test]
fn status_classification() {
    assert_eq!(classify_status("minecraft:full"), ChunkStatus::Full);
    assert_eq!(classify_status("full"), ChunkStatus::Full);
    assert_eq!(classify_status("minecraft:features"), ChunkStatus::Proto);
    assert_eq!(classify_status("Full"), ChunkStatus::Proto);
    assert_eq!(classify_status(""), ChunkStatus::Proto);
}

#[test]
fn policy_table() {
    assert!(is_admitted(ProtoOption::Skip, ChunkStatus::Full));
    assert!(!is_admitted(ProtoOption::Skip, ChunkStatus::Proto));
    assert!(is_admitted(ProtoOption::Include, ChunkStatus::Full));
    assert!(is_admitted(ProtoOption::Include, ChunkStatus::Proto));
    assert!(!is_admitted(ProtoOption::OnlyProto, ChunkStatus::Full));
    assert!(is_admitted(ProtoOption::OnlyProto, ChunkStatus::Proto));
}

#[test]
fn one_full_chunk_of_stone_at_level_zero() {
    let mut counts = BlockCounts::new("minecraft:overworld");
    counts.add_chunk(&floor_chunk("minecraft:full", "minecraft:stone"), ProtoOption::Skip);
    assert_eq!(counts.count("minecraft:stone", 0), 256);
    assert_eq!(counts.count("minecraft:stone", 1), 0);
    assert_eq!(counts.count("minecraft:dirt", 0), 0);
    assert_eq!(counts.chunks_counted, 1);
    assert_eq!(counts.blocks_counted, 4096);
    assert_eq!(counts.area(), 256);
    // frequency at level 0: 256 blocks over 256 columns
    assert_eq!(counts.count("minecraft:stone", 0) as f64 / counts.area() as f64, 1.0);
    assert_eq!(counts.dimension, "minecraft:overworld");
}

#[test]
fn protochunk_policy_skip() {
    let mut counts = BlockCounts::new("d:x");
    counts.add_chunk(&floor_chunk("minecraft:full", "a:full"), ProtoOption::Skip);
    counts.add_chunk(&floor_chunk("minecraft:noise", "a:proto"), ProtoOption::Skip);
    assert_eq!(counts.chunks_counted, 1);
    assert_eq!(counts.protochunks_seen, 1);
    assert_eq!(counts.count("a:full", 0), 256);
    assert_eq!(counts.count("a:proto", 0), 0);
    assert_eq!(counts.blocks_counted, 4096);
}

#[test]
fn protochunk_policy_include() {
    let mut counts = BlockCounts::new("d:x");
    counts.add_chunk(&floor_chunk("full", "a:full"), ProtoOption::Include);
    counts.add_chunk(&floor_chunk("minecraft:noise", "a:proto"), ProtoOption::Include);
    assert_eq!(counts.chunks_counted, 2);
    assert_eq!(counts.protochunks_seen, 1);
    assert_eq!(counts.count("a:full", 0), 256);
    assert_eq!(counts.count("a:proto", 0), 256);
    assert_eq!(counts.blocks_counted, 8192);
}

#[test]
fn protochunk_policy_only_proto() {
    let mut counts = BlockCounts::new("d:x");
    counts.add_chunk(&floor_chunk("minecraft:full", "a:full"), ProtoOption::OnlyProto);
    counts.add_chunk(&floor_chunk("minecraft:noise", "a:proto"), ProtoOption::OnlyProto);
    assert_eq!(counts.chunks_counted, 1);
    assert_eq!(counts.protochunks_seen, 1);
    assert_eq!(counts.count("a:full", 0), 0);
    assert_eq!(counts.count("a:proto", 0), 256);
}

#[test]
fn counts_by_level_and_name() {
    // levels -2..0; level -2 holds 3 ore and 1 stone, level -1 holds 2 ore
    let mut blocks = vec![None; 512];
    blocks[0] = Some("m:ore".to_string());
    blocks[17] = Some("m:ore".to_string());
    blocks[255] = Some("m:ore".to_string());
    blocks[3] = Some("m:stone".to_string());
    blocks[256] = Some("m:ore".to_string());
    blocks[511] = Some("m:ore".to_string());
    let chunk = ChunkContents { status: "full".to_string(), y_start: -2, y_end: 0, blocks };
    let mut counts = BlockCounts::new("d:x");
    counts.add_chunk(&chunk, ProtoOption::Skip);
    counts.add_chunk(&chunk, ProtoOption::Skip);
    assert_eq!(counts.count("m:ore", -2), 6);
    assert_eq!(counts.count("m:ore", -1), 4);
    assert_eq!(counts.count("m:stone", -2), 2);
    assert_eq!(counts.count("m:stone", -1), 0);
    assert_eq!(counts.count("m:ore", 0), 0);
    assert_eq!(counts.blocks_counted, 1024);
    assert_eq!(counts.chunks_counted, 2);
    assert_eq!(counts.area(), 512);
    // one entry per name, levels in increasing order
    assert_eq!(counts.counts.len(), 2);
    let ore = counts.counts.iter().find(|t| t.name == "m:ore").unwrap();
    assert_eq!(ore.levels, vec![(-2, 6), (-1, 4)]);
}

#[test]
fn levels_arriving_out_of_order_stay_sorted() {
    let mut counts = BlockCounts::new("d:x");
    for y in [5isize, -3, 9, 0] {
        let mut blocks = vec![None; 256];
        blocks[7] = Some("m:ore".to_string());
        let chunk = ChunkContents { status: "full".to_string(), y_start: y, y_end: y + 1, blocks };
        counts.add_chunk(&chunk, ProtoOption::Skip);
    }
    assert_eq!(counts.counts[0].levels, vec![(-3, 1), (0, 1), (5, 1), (9, 1)]);
}

#[test]
fn empty_chunk_counts_no_blocks() {
    let chunk = ChunkContents { status: "full".to_string(), y_start: 4, y_end: 4, blocks: vec![] };
    let mut counts = BlockCounts::new("d:x");
    counts.add_chunk(&chunk, ProtoOption::Include);
    assert_eq!(counts.chunks_counted, 1);
    assert_eq!(counts.blocks_counted, 0);
    assert!(counts.counts.is_empty());
}

/// A region holding one full chunk of stone and one protochunk of dirt, each
/// covering level 0 only, between empty slots.
fn mixed_region() -> Vec<Option<ChunkContents>> {
    vec![
        None,
        Some(floor_chunk("minecraft:full", "minecraft:stone")),
        None,
        Some(floor_chunk("minecraft:noise", "minecraft:dirt")),
        None,
    ]
}

#[test]
fn region_count_skip() {
    let r = count_blocks(&mixed_region(), "minecraft:overworld", ProtoOption::Skip);
    assert_eq!((r.chunks_counted, r.protochunks_seen, r.blocks_counted), (1, 1, 4096));
    assert_eq!(r.count("minecraft:stone", 0), 256);
    assert_eq!(r.count("minecraft:dirt", 0), 0);
    assert_eq!(r.dimension, "minecraft:overworld");
}

#[test]
fn region_count_include() {
    let r = count_blocks(&mixed_region(), "minecraft:overworld", ProtoOption::Include);
    assert_eq!((r.chunks_counted, r.protochunks_seen, r.blocks_counted), (2, 1, 8192));
    assert_eq!(r.count("minecraft:stone", 0), 256);
    assert_eq!(r.count("minecraft:dirt", 0), 256);
}

#[test]
fn region_count_only_proto() {
    let r = count_blocks(&mixed_region(), "minecraft:overworld", ProtoOption::OnlyProto);
    assert_eq!((r.chunks_counted, r.protochunks_seen, r.blocks_counted), (1, 1, 4096));
    assert_eq!(r.count("minecraft:stone", 0), 0);
    assert_eq!(r.count("minecraft:dirt", 0), 256);
}

#[test]
fn including_everything_sums_the_two_exclusive_policies() {
    let region = mixed_region();
    let s = count_blocks(&region, "d:x", ProtoOption::Skip);
    let o = count_blocks(&region, "d:x", ProtoOption::OnlyProto);
    let i = count_blocks(&region, "d:x", ProtoOption::Include);
    assert_eq!(i.chunks_counted, s.chunks_counted + o.chunks_counted);
    assert_eq!(i.blocks_counted, s.blocks_counted + o.blocks_counted);
    for name in ["minecraft:stone", "minecraft:dirt"] {
        assert_eq!(i.count(name, 0), s.count(name, 0) + o.count(name, 0));
    }
    assert_eq!(i.protochunks_seen, s.protochunks_seen);
    assert_eq!(i.protochunks_seen, o.protochunks_seen);
}

#[test]
fn empty_slots_change_nothing() {
    let with_gaps = count_blocks(&mixed_region(), "d:x", ProtoOption::Include);
    let dense = count_blocks(
        &vec![
            Some(floor_chunk("minecraft:full", "minecraft:stone")),
            Some(floor_chunk("minecraft:noise", "minecraft:dirt")),
        ],
        "d:x",
        ProtoOption::Include,
    );
    assert_eq!(with_gaps.chunks_counted, dense.chunks_counted);
    assert_eq!(with_gaps.blocks_counted, dense.blocks_counted);
    assert_eq!(with_gaps.protochunks_seen, dense.protochunks_seen);
    assert_eq!(with_gaps.count("minecraft:stone", 0), dense.count("minecraft:stone", 0));
}

#[test]
fn region_without_chunks() {
    let counts = count_blocks(&vec![None, None, None], "minecraft:the_end", ProtoOption::Skip);
    assert_eq!(counts.chunks_counted, 0);
    assert_eq!(counts.blocks_counted, 0);
    assert_eq!(counts.protochunks_seen, 0);
    assert!(counts.counts.is_empty());
    assert_eq!(counts.dimension, "minecraft:the_end");
}
