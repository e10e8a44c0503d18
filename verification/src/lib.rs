//! Pipelines over datasets of JSON records: content-addressed datasets,
//! checked pipelines of blocks, cache keys, and runs that say what is to
//! be done next.

use vstd::prelude::*;

pub mod app;
pub mod app_laws;
pub mod cache;
pub mod cache_laws;
pub mod dataset;
pub mod dataset_laws;
pub mod dataset_model;
pub mod digest;
pub mod hex;
pub mod json;
pub mod policy;
pub mod run;
pub mod run_laws;
pub mod run_model;
pub mod scope;
pub mod task;
pub mod text;

verus! {

/// The parser of pipeline descriptions. The grammar is bound to this type
/// by the program that embeds the library.
pub struct DustParser;

} // verus!
