//! Column identities, independent of any host framework's column types.

use vstd::prelude::*;

verus! {

/// The four kinds of column a circuit can touch.
#[derive(Clone, Copy, Debug, PartialEq, Eq, Structural)]
pub enum ColumnKind {
    Fixed,
    Advice,
    Instance,
    Selector,
}

/// A column is identified by its kind and a dense index within that kind.
#[derive(Clone, Copy, Debug, PartialEq, Eq, Structural)]
pub struct TraceColumn {
    pub kind: ColumnKind,
    pub index: usize,
}

/// A cell is identified by its column and a row index.
#[derive(Clone, Copy, Debug, PartialEq, Eq, Structural)]
pub struct TraceCell {
    pub column: TraceColumn,
    pub row: usize,
}

} // verus!
