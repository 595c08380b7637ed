//! Atlas packing and layout engine for an image-gallery backend.
//!
//! The crate covers the algorithmic core of the gallery: shelf packing of
//! thumbnails into atlas canvases, the pre-pack size normalization passes,
//! the layout strategies (sort, expansion grid, time histogram, embedding
//! normalization), the paged atlas wire format, the compositor's pixel
//! placement, and the caching / admission policies.

use vstd::prelude::*;

mod atlas;
mod bulk;
mod cache;
mod compose;
mod dist;
mod embed;
mod err;
mod filter;
mod format;
mod grid;
mod hist;
mod img;
mod layout;
mod order;
mod pack;
mod scale;

pub use atlas::{
    dynamic_rejects, icon_shrunk, is_area_settling, pack_dynamic, plan_static_atlas,
    some_height_exceeds, sorted_desc_by_height,
};
pub use bulk::{BulkImageRequestEntry, BulkSlotPlan, bulk_slot_step};
pub use cache::{RegenDecision, RegenTrigger, is_stale, upload_invalidates};
pub use compose::{
    Canvas, Tile, TileAction, TileFetch, covered, covered_row_prefix, covered_rows,
    lemma_pix_bounds, pix, tile_action,
};
pub use dist::{
    CosScore, DateTimeDist, DistanceFunctionVariants, PaletteCosDist, PaletteDist, Score,
    cos_count, cos_count_at, cos_defined, cos_score, cos_sq, datetime_score, entry_diff,
    lemma_cos_bound, lemma_cos_nonneg, lemma_pal_sum_bound, lemma_pow100_bound10,
    lemma_pow100_pos, min_len, pal_sum, palette_score, pow100, sq_at,
};
pub use embed::{
    EmbeddedPoint, RawPoint, SCALE, TsneOptions, lemma_norm_coord_range, max_x, max_y, min_x,
    min_y, norm_coord, normalize_embedding,
};
pub use err::Error;
pub use filter::{
    Filter, apply_filter, field_present, filtered, known_field, min_int, names_known, passes,
};
pub use format::{
    AtlasResponse, be16, be32, be64, dec_ascii, dec_chars, dec_digits, dec_to_string,
    encode_atlas_file, encode_atlas_page, encode_bulk_slot, file_pages_bytes, hex_byte,
    hex_digits, mapping_bytes, mappings_bytes, msg_array_header, msg_bin_header, msg_map_header,
    msg_nil, msg_str_header, msg_uint, page_bytes, pow16, push_str_header, push_uint, uuid_ascii,
    uuid_bytes, uuid_chars, uuid_to_string,
};
pub use grid::{
    Anchor, ExpansionGridOptions, GridDistanceFunction, PosCell, cell_cost, cell_cost_of,
    cells_wf, create_expansion_grid, grid_filled, quadrant_i0, quadrant_j0, quadrant_side,
    resolved_anchor, resolved_grid_dist,
};
pub use hist::{
    TimeHistOptions, TimeHistResolution, TimeKey, buckets_prefix_len, buckets_wf, civil_from_days,
    civil_ymd, days_of_jan1, days_of_jan1_exec, div_floor_i64, group_by_key, record_key, time_key,
    time_key_of, week_of_year, weekday_mon0,
};
pub use img::{
    Collection, CreateCollectionRequest, Image, ImageFile, ImageFileKind, ImageMetadata,
    ImageMetadataResponse, NewCollection, NewImage, UuidString, all_wf, atlas_path_chars,
    file_path_chars, get_static_atlas_path, records_match,
};
pub use layout::{
    Layout, LayoutOptions, LayoutRequest, SortOptions, cfv_reference_missing, compare_defined_on,
    do_layout, expansion_grid_ok, grid_rows_match, missing_reference_msg, reference_missing,
    request_compare, request_defined, sorted_by_reference, sorted_by_timestamp, sorted_for,
    time_hist, time_hist_grid,
};
pub use order::{
    CompareDist, CompareFunction, CompareFunctionVariants, Rank, SignedDist, comparative_defined,
    comparative_rank, comparator_total_on, cos_cmp, cos_in_range, cos_is_inf, cos_is_zero,
    cos_sign, le_total_on_any, lemma_comparative_total_on, lemma_cos_score_in_range,
    lemma_insert_multiset, lemma_insertion_step, lemma_remove_insert_multiset,
    lemma_signed_datetime_total_on, rank_defined, rank_le, rank_of, score_cmp, score_sign,
    signed_defined, signed_rank, sort_by, sort_by_height_desc,
};
pub use pack::{
    AtlasMapping, AtlasPage, RowPlan, gen_atlas, isqrt_u64, lemma_max_height_ge,
    lemma_max_height_le, lemma_row_end_bounds, lemma_rows_end_chain, lemma_rows_progress,
    lemma_sum_area_congruent, lemma_sum_area_nonneg, lemma_sum_area_permutation,
    lemma_sum_area_remove, lemma_sum_area_shifted, lemma_sum_area_split,
    lemma_sum_row_heights_mono, lemma_sum_width_nonneg, lemma_sum_width_split,
    atlas_page_plan, mapping_matches_rows, max_height, pack_all, pack_rows, page_wf,
    pages_prefix_len, placed_at,
    rects_disjoint, row_end, row_end_from, rows_covered_end, rows_wf, sum_area, sum_row_heights,
    sum_width, total_area_checked,
};
pub use scale::{
    halve_all, halve_all_iter, icon_fit, lemma_halve_area, lemma_halve_iter_len,
    lemma_icon_fit_fits, lemma_icon_fit_pow2, shrink_to_area_budget, shrink_to_icon_bound,
    total_area,
};

verus! {

/// Side-length budget for one static-atlas canvas, in pixels.
pub const MAX_SIZE: u32 = 4000;

/// Ceiling for a bulk byte-streaming response, in bytes.
pub const RESPONSE_MAX_SIZE: u64 = 536870912;

/// Seconds after which a cached atlas is considered stale.
pub const REGEN_INTERVAL_SECS: i64 = 900;

/// Maximum number of palette entries an image record may carry.
pub const PALETTE_MAX: usize = 10;

} // verus!
