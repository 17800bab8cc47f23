//! Structural tracer for zero-knowledge circuit definitions.
//!
//! The crate records, during a dry run of a circuit's synthesis, which cells
//! are written, which regions they belong to, which selectors are enabled
//! where, and which cells are tied together by equality constraints or bound
//! to public-input columns. No proving is performed: the result is a purely
//! structural model of the circuit, ready for a downstream analysis.

use vstd::prelude::*;

mod column;
mod keys;
mod laws;
mod layouter;
mod region;
mod sink;

pub use column::ColumnKind;
pub use column::TraceCell;
pub use column::TraceColumn;
pub use keys::cell_key;
pub use keys::dec_string;
pub use laws::lemma_collector_ordinals_dense;
pub use laws::lemma_copy_endpoints_in_range;
pub use laws::lemma_recorded_cells_in_range;
pub use laws::lemma_region_ordinals_dense;
pub use laws::lemma_write_increments_multiplicity;
pub use layouter::AnalyticLayouter;
pub use region::RegionShape;
pub use sink::Analyzable;
pub use sink::CellValue;

verus! {

/// Marker trait for the cell-value types a trace can carry. A field element
/// of the host proving system satisfies it; so does any plain copyable value.
pub trait AnalyzableField: Copy {}

impl<T: Copy> AnalyzableField for T {}

/// The errors a trace operation can report.
#[derive(Clone, Copy, Debug, PartialEq, Eq, Structural)]
pub enum TraceError {
    /// A row index fell outside the usable row range for the given `k`.
    NotEnoughRows { k: u32 },
    /// A column index fell outside the allocated grid.
    BoundsFailure,
    /// A fixed-column value was still unknown when it had to be resolved.
    Synthesis,
}

} // verus!
