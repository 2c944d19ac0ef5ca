//! Block-distribution scanning for region-based world saves: zone geometry,
//! per-chunk block counting, world-format detection and the integer side of
//! exporting per-level distributions.

mod anvil;
mod chunk;
mod counts;
mod dimension;
mod export;
pub mod tally;
mod zone;

pub use anvil::detect_version;
pub use counts::{
    count_blocks, entry_term, lemma_policies_partition, level_tally, level_term, levels_sorted, slot_blocks, slot_chunks,
    slot_protochunks, slot_tally, slots_wf, BlockCounts, BlockTally,
};
pub use chunk::{
    admits, classify_status, is_admitted, is_full_status, status_of, ChunkContents, ChunkStatus,
    ProtoOption, RegionVersion,
};
pub use dimension::{dimension_dir, get_path_from_dimension, sole_colon_at};
pub use export::{
    dimension_outcome, jer_plan, level_offset, level_span, offset_of, seq_max, seq_min,
    BlockJERDistributionData, DimensionOutcome, ExportNotices, JerPlan, MAX_JER_LEVEL,
};
pub use zone::{region_coords, ConfigError, Zone};
