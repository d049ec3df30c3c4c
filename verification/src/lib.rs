//! A verified pipeline for battle-log data: parse raw JSON text into a
//! table, flatten the nested per-side structures into one row per side
//! occupant, and consolidate many snapshot tables into one deduplicated,
//! time-ordered canonical table.

use vstd::prelude::*;

pub mod consolidate;
pub mod laws;
pub mod names;
pub mod parse;
pub mod normalize;
pub mod table;
pub mod value;

pub use table::Table;
pub use table::TableV;
pub use table::Tag;
pub use value::JVal;
pub use value::JsonValue;

verus! {

/// Why a pipeline stage gave up. Each run is all-or-nothing: the first
/// of these ends it.
#[derive(Debug)]
pub enum PipelineError {
    /// The input was not well-formed JSON, or did not have the expected
    /// overall shape; `offset` is the byte position of the problem.
    Parse { offset: usize },
    /// Two rows disagreed about the type of the named column while one
    /// payload was being tabulated.
    SchemaInference { column: Vec<u8> },
    /// A struct column did not have the expected field count during
    /// normalization.
    SchemaMismatch { column: Vec<u8> },
    /// Two snapshots disagreed about the type of the named column.
    SchemaUnion { column: Vec<u8> },
    /// There were no snapshots to consolidate.
    EmptyInput,
}

} // verus!
