//! The structural guarantees of a finished trace, stated as public proof
//! functions over the well-formedness predicates that every operation of
//! the sink and the collector preserves.

use vstd::prelude::*;

use crate::column::TraceColumn;
use crate::region::cell_count;
use crate::region::lemma_note_cell_props;
use crate::region::spec_note_cell;
use crate::region::spec_write_rel;
use crate::region::RegionShape;
use crate::sink::Analyzable;
use crate::AnalyzableField;
use crate::AnalyticLayouter;

verus! {

/// Region ordinals are exactly `0, 1, .., len - 1`: each archived region's
/// ordinal is its position, so the region list length equals the number of
/// region open/close pairs that completed.
pub proof fn lemma_region_ordinals_dense<V: AnalyzableField>(t: Analyzable<V>)
    requires
        t.wf(),
    ensures
        forall|i: int| 0 <= i < t.regions@.len() ==> (#[trigger] t.regions@[i]).ordinal == i,
{
}

/// The same for the region shape collector's archive.
pub proof fn lemma_collector_ordinals_dense(l: AnalyticLayouter)
    requires
        l.wf(),
    ensures
        forall|i: int| 0 <= i < l.regions@.len() ==> (#[trigger] l.regions@[i]).ordinal == i,
{
}

/// Every recorded cell of every archived region has its row inside the
/// usable row range: the trace never holds an out-of-range cell.
pub proof fn lemma_recorded_cells_in_range<V: AnalyzableField>(t: Analyzable<V>)
    requires
        t.rows_ok(),
    ensures
        forall|r: int, i: int|
            0 <= r < t.regions@.len() && 0 <= i < (#[trigger] t.regions@[r]).cells@.len() ==> (
            #[trigger] t.regions@[r].cells@[i]).1 < t.usable_rows,
{
    assert forall|r: int, i: int|
        0 <= r < t.regions@.len() && 0 <= i < (#[trigger] t.regions@[r]).cells@.len() implies (
    #[trigger] t.regions@[r].cells@[i]).1 < t.usable_rows by {
        assert(t.regions@[r].rows_below(t.usable_rows));
    }
}

/// One recorded write to a cell raises that cell's multiplicity counter by
/// exactly one and leaves every other counter untouched: after two writes
/// to one cell inside a region its counter reads two, not one.
pub proof fn lemma_write_increments_multiplicity(
    pre: RegionShape,
    post: RegionShape,
    c: TraceColumn,
    row: usize,
)
    requires
        pre.wf(),
        cell_count(pre.cells@, c, row) < usize::MAX,
        spec_write_rel(pre, post, c, row),
    ensures
        cell_count(post.cells@, c, row) == cell_count(pre.cells@, c, row) + 1,
        forall|c2: TraceColumn, r2: usize|
            !(c2 == c && r2 == row) ==> #[trigger] cell_count(post.cells@, c2, r2) == cell_count(
                pre.cells@,
                c2,
                r2,
            ),
{
    lemma_note_cell_props(pre.cells@, c, row);
    assert forall|c2: TraceColumn, r2: usize|
        !(c2 == c && r2 == row) implies #[trigger] cell_count(post.cells@, c2, r2) == cell_count(
        pre.cells@,
        c2,
        r2,
    ) by {
        assert(cell_count(spec_note_cell(pre.cells@, c, row), c2, r2) == cell_count(
            pre.cells@,
            c2,
            r2,
        ));
    }
}

/// Both endpoints of every recorded copy constraint lie inside the usable
/// row range: re-checking bounds after the fact always passes.
pub proof fn lemma_copy_endpoints_in_range<V: AnalyzableField>(t: Analyzable<V>)
    requires
        t.rows_ok(),
    ensures
        forall|i: int|
            0 <= i < t.copies@.len() ==> (#[trigger] t.copies@[i]).0.row < t.usable_rows
                && t.copies@[i].1.row < t.usable_rows,
{
}

} // verus!
