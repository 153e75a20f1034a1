//! A fuzzy multi-pattern matcher over Unicode text: an augmented Aho-Corasick
//! automaton over the patterns' grapheme clusters, a breadth-first fuzzy
//! exploration tolerating insertions, deletions, substitutions and adjacent
//! transpositions, an exact fixed-point penalty and similarity model, and
//! selectors that turn the raw match set into non-overlapping selections.
//!
//! All scores are exact rationals over fixed-point integers: weights,
//! thresholds and similarities are hundredths (`SCALE` is 1.0), accumulated
//! penalties are held in units of `1/SCALE_SQ`.

mod automaton;
mod builder;
mod engine_ops;
mod laws;
mod matches;
mod replacer;
mod score;
mod search;
mod segment;
mod select;
mod structs;
mod text;
mod textops;

pub use automaton::{
    node_wf, sim_of, spec_trans_lookup, table_lookup, table_wf, FuzzyAhoCorasick, Node,
    SimilarityTable, MAX_BEAM,
};
pub use builder::{
    default_similarity_map, fail_depths, node_extends, pattern_built, pattern_reaches, reach_upto,
    trie_edge_depths, trie_extends, trie_reach, walk_trie, FuzzyAhoCorasickBuilder,
};
pub use engine_ops::nolap_post;
pub use laws::{
    lemma_edit_sum, lemma_exact_admission, lemma_exact_score_admits, lemma_limit_compliance,
    lemma_non_overlap,
    lemma_similarity_formula, lemma_span_validity, lemma_threshold, lemma_threshold_monotone,
    lemma_uniqueness,
};
pub use matches::{
    lemma_match_span_bytes, match_sortable, match_span_ok, match_valid, spec_unique_id, FuzzyMatch,
    FuzzyMatches,
};
pub use replacer::{kept_end, lemma_all_applied, replace_applied, replaced_fold, FuzzyReplacer};
pub use score::{
    lemma_mul_bound, score_of, Score, MAX_EDIT_LIMIT, MAX_GRAPHEMES, MAX_PATTERN_BYTES,
    MAX_PENALTY, MAX_SCORE_DEN, SCALE, SCALE_CUBE, SCALE_SQ,
};
pub use search::{
    exact_complete, exact_occurrence, exact_reported, keys_unique, pattern_labels, same_key,
    search_label, PENALTY_BOUND, SEARCH_BUDGET,
};
pub use segment::{
    lemma_matched_of_push, lemma_segs_text_push, matched_of, no_adjacent_gaps, seg_text,
    segments_ok, segs_text, Segment, UnmatchedSegment,
};
pub use select::{
    cov_eq, cov_lt, coverage_le, default_le, disjoint_spans, from_list, greedy_le,
    lemma_valid_transport, lemma_wf_transport, nolap_fold, nolap_insert_pos, nolap_keeps,
    nolap_unique_fold, pairwise_disjoint, plen, sim_eq, sorted_by_start, tlen, uid_fresh,
    unique_ids,
};
pub use structs::{
    governing, limits_wf, opt_le, opt_lt, pattern_eq, pattern_wf, within_limits_spec, FuzzyLimits,
    FuzzyPenalties, NumEdits, Pattern, PatternIndex, UniqueId,
};
pub use text::{
    byte_len, grapheme_split_post, graphemes_of, gstart, is_unicode_space, lemma_byte_len_concat,
    lemma_byte_len_ge_chars, lemma_encode_scalar_len, lemma_flatten_len_ge_count,
    lemma_grapheme_count, lemma_gstart_bounds, lemma_gstart_end, lemma_gstart_inj,
    lemma_gstart_nonneg, lemma_gstart_step, lemma_match_text_bound, lower_of, strs_of,
};
pub use textops::{
    all_space, concat_texts, ends_with_space_char, is_gap_punct, keep_of, segment_text_fold,
    strip_postfix_spec, strip_prefix_fold, trim_end_spec, trim_start_spec, unmatched_texts,
};
