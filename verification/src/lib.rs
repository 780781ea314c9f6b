//! Prompt cache accounting and multimodal input normalisation for an Anthropic style messages API.
pub mod assoc;
pub mod block_laws;
pub mod blocks;
pub mod cache_policy;
pub mod entry_laws;
pub mod json;
pub mod json_cut;
pub mod json_laws;
pub mod life_laws;
pub mod media;
pub mod media_laws;
pub mod multimodal;
pub mod multimodal_laws;
pub mod profile;
pub mod profile_laws;
pub mod request_laws;
pub mod stable_json;
pub mod table;
pub mod text;
pub mod text_laws;
pub mod tokens;
pub mod tracker;
pub mod tracker_laws;
pub mod ttl;
pub mod types;
pub mod usage;
pub mod usage_laws;
pub mod view_laws;
