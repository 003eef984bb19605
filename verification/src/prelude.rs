//! The items that most render contracts use, for one import.

pub use crate::bytes::{
    concat_bytes, escape_json_bytes, escape_json_string, i64_to_bytes, string_to_bytes,
    u32_to_bytes,
};
pub use crate::json::{FormBuilder, JsonDocument, TaskBuilder};
pub use crate::markdown::MarkdownBuilder;
pub use crate::router::{
    parse_id, path_eq, path_starts_with, path_suffix, path_to_bytes, Request, Router,
    RouterResult,
};
pub use crate::styles::StyleBuilder;
pub use soroban_sdk::Bytes;
