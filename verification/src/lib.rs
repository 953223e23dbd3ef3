//! Verified core of the cricket bindings: the argument preparation, error handling and result
//! shaping around cricket's robot-description and code-generation calls.

mod codegen;
mod collections;
mod error;
mod json;
mod language;
mod link_spheres;

pub use codegen::{
    bad_optional_path, first_non_utf8, generate_path_error, generate_request,
    lemma_first_non_utf8_concat, lemma_first_non_utf8_is_first_invalid,
    lemma_generate_path_error_in_order, lemma_optional_path_handed_over,
    lemma_path_text_encodes_path, optional_bytes,
    optional_path_text, optional_text, robot_info_args, subtemplate_paths, GenRequest, GenResult,
    RawGenResult, RobotInfoArgs, Subtemplate,
};
pub use collections::{
    allowed_link_pairs, bounding_spheres, frame_map, lemma_allowed_link_pairs_stay_normalized,
    lemma_bounding_spheres_keep_last,
};
pub use error::{error_message, exception_message, path_text, path_to_str, utf8_lossy, Error};
pub use json::{json_accepts, json_value, parse_json};
pub use language::{language_name, Language, Traced};
pub use link_spheres::{
    count_preceding, is_key, lemma_per_link_spheres_indexed_by_link,
    lemma_per_link_spheres_sorted, lemma_stable_rank_in_range, lemma_stable_rank_injective,
    link_keys, numbers_links, per_link_spheres, precedes, stable_rank, LinkSpheres,
};
