//! Concrete eviction policies.

mod lru;
mod lru_k;

pub use lru::LruReplacer;
pub use lru::is_lru_victim;
pub use lru::lru_evict_removes;
pub use lru::lru_touch_ok;
pub use lru::lru_unchanged;
pub use lru::lru_fresh_entries;
pub use lru::lemma_lru_size_counts_evictable;
pub use lru::lemma_lru_size_within_capacity;
pub use lru::lemma_lru_pin_unpin_reenters;
pub use lru::lemma_lru_victim_unique;
pub use lru::lemma_lru_eviction_order;
pub use lru::lemma_lru_touch_moves_to_back;
pub use lru::lemma_lru_entries_all_counted;
pub use lru_k::{LruKReplacer, LruKConfig, LRUK_REPLACER_K, LRUK_REPLACER_REF_PERIOD};
pub use lru_k::{lruk_correlated, lruk_record, lruk_unchanged, lruk_touched, lruk_flag_set, lruk_removed};
pub use lru_k::{is_lruk_candidate, lruk_dist, lruk_beats, is_lruk_victim};
pub use lru_k::lemma_lruk_size_counts_evictable;
pub use lru_k::lemma_lruk_size_within_capacity;
pub use lru_k::lemma_lruk_victim_unique;
pub use lru_k::lemma_lruk_pin_unpin_roundtrip;
pub use lru_k::lemma_lruk_short_history_preferred;
pub use lru_k::lemma_lruk_guarded_frame_not_victim;
pub use lru_k::lemma_lruk_correlation_filter;
