//! Staged duplicate-file detection: size cull, prefix-hash cull, full-hash
//! cull, and deterministic result assembly, verified end to end over an
//! in-memory snapshot of file contents.

mod app_state;
mod candidate;
mod cull;
mod hashing;
mod laws;
mod pipeline;
mod report;
mod stages;
mod traversal;

pub use app_state::AppState;
pub use app_state::DisplayablePath;
pub use candidate::CandidateFile;
pub use cull::StageKey;
pub use cull::cull_dupes;
pub use cull::is_dupe_key;
pub use cull::key_of;
pub use cull::keys_of;
pub use cull::spec_cull;
pub use cull::survives;
pub use cull::survivor_pred;
pub use hashing::PREFIX_LEN;
pub use hashing::prefix_of;
pub use hashing::seahash_of;
pub use hashing::spec_prefix;
pub use laws::lemma_detect_dupes_deterministic;
pub use laws::lemma_empty_input;
pub use laws::lemma_group_members_share_content;
pub use laws::lemma_reported_paths_from_snapshot;
pub use laws::lemma_single_file;
pub use laws::lemma_survivor_hash_characterization;
pub use laws::lemma_two_pairs_minimum;
pub use laws::lemma_two_pairs_two_groups;
pub use laws::lemma_unique_content_not_reported;
pub use laws::lemma_unique_size_not_reported;
pub use laws::spec_distinct_file_paths;
pub use laws::spec_hash_injective_on;
pub use laws::spec_snapshot_path;
pub use pipeline::FileEntry;
pub use pipeline::Opt;
pub use pipeline::detect_dupes;
pub use pipeline::effective_minimum;
pub use pipeline::initial_candidates;
pub use pipeline::lemma_survivor_fields;
pub use pipeline::spec_content_of;
pub use pipeline::spec_contents_for;
pub use pipeline::spec_detect_dupes;
pub use pipeline::spec_detect_survivors;
pub use pipeline::spec_effective_minimum;
pub use pipeline::spec_initial_candidates;
pub use pipeline::spec_prefixes_for;
pub use report::all_have_keys;
pub use report::format_results;
pub use report::has_keys;
pub use report::key_lt;
pub use report::lemma_path_lt_trichotomy;
pub use report::same_group;
pub use report::path_lt;
pub use report::spec_format_results;
pub use report::spec_insert_sorted;
pub use report::spec_line_head;
pub use report::spec_piece;
pub use report::spec_render;
pub use report::spec_rendered_prefix;
pub use report::spec_sort;
pub use report::spec_u64_digits;
pub use report::u64_to_string;
pub use stages::cull_by_filesize;
pub use stages::cull_by_hash;
pub use stages::cull_by_start;
pub use stages::lemma_min_size_members;
pub use stages::min_size_pred;
pub use stages::spec_cull_by_filesize;
pub use stages::spec_cull_by_hash;
pub use stages::spec_cull_by_start;
pub use stages::spec_hash_opt;
pub use stages::spec_min_size_kept;
pub use stages::spec_with_hash;
pub use stages::spec_with_hashes;
pub use traversal::is_hidden;
pub use traversal::spec_is_hidden;
