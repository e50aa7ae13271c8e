//! Resolving the run configuration from optional textual settings, with
//! the built-in values as defaults.

use vstd::prelude::*;

use crate::strutil::{parse_usize, parse_usize_ok, parse_usize_val};
use crate::types::Config;

verus! {

/// The value a textual setting resolves to: the number it reads as, or
/// the default when it is absent or unreadable.
pub open spec fn spec_setting(o: Option<Seq<char>>, d: int) -> int {
    match o {
        Some(s) => if parse_usize_ok(s) {
            parse_usize_val(s)
        } else {
            d
        },
        None => d,
    }
}

/// The view of an optional setting string.
pub open spec fn opt_view(o: &Option<String>) -> Option<Seq<char>> {
    match o {
        Some(s) => Some(s@),
        None => None,
    }
}

fn resolve_setting(o: &Option<String>, d: usize) -> (r: usize)
    ensures
        r as int == spec_setting(opt_view(o), d as int),
{
    match o {
        Some(s) => {
            match parse_usize(s.as_str()) {
                Some(v) => v,
                None => d,
            }
        },
        None => d,
    }
}

impl Config {
    /// Resolve a configuration from optional textual settings, falling
    /// back to the built-in default for each one that is absent or does
    /// not read as a number.
    pub fn from_settings(
        chunk_size: &Option<String>,
        chunk_overlap: &Option<String>,
        vector_dimension: &Option<String>,
        top_k: &Option<String>,
    ) -> (r: Config)
        ensures
            r.chunk_size as int == spec_setting(opt_view(chunk_size), 350),
            r.chunk_overlap as int == spec_setting(opt_view(chunk_overlap), 100),
            r.vector_dimension as int == spec_setting(opt_view(vector_dimension), 1536),
            r.top_k as int == spec_setting(opt_view(top_k), 10),
    {
        let top_k_v: usize = resolve_setting(top_k, 10);
        Config {
            chunk_size: resolve_setting(chunk_size, 350),
            chunk_overlap: resolve_setting(chunk_overlap, 100),
            vector_dimension: resolve_setting(vector_dimension, 1536),
            top_k: top_k_v as u64,
        }
    }
}

} // verus!
