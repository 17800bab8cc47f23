//! The assignment sink: sole owner and mutator of the fixed grid, the
//! selector grid, the region archive and the copy-constraint set, and the
//! component enforcing the usable row range.

use vstd::prelude::*;

use crate::column::ColumnKind;
use crate::column::TraceCell;
use crate::column::TraceColumn;
use crate::region::RegionShape;
use crate::region::cell_count;
use crate::region::lemma_fill_cells_props;
use crate::region::lemma_fill_cells_snoc;
use crate::region::lemma_fill_extent_snoc;
use crate::region::lemma_insert_column_idem;
use crate::region::lemma_note_cell_props;
use crate::region::spec_fill_cells;
use crate::region::spec_fill_extent;
use crate::region::spec_insert_column;
use crate::region::spec_enable_rel;
use crate::region::spec_write_rel;
use crate::AnalyzableField;
use crate::TraceError;

verus! {

/// One slot of the fixed grid: not yet written, or written with a value.
#[derive(Clone, Copy, Debug, PartialEq)]
pub enum CellValue<V> {
    Unassigned,
    Assigned(V),
}

/// The fixed-column identity with index `i`.
pub open spec fn fixed_col(i: usize) -> TraceColumn {
    TraceColumn { kind: ColumnKind::Fixed, index: i }
}

/// The advice-column identity with index `i`.
pub open spec fn advice_col(i: usize) -> TraceColumn {
    TraceColumn { kind: ColumnKind::Advice, index: i }
}

/// The whole structural trace of one synthesis run, populated through the
/// capability calls the host framework makes while a circuit synthesizes.
#[derive(Debug, PartialEq)]
pub struct Analyzable<V: AnalyzableField> {
    /// The log2 row count the run was started with.
    pub k: u32,
    /// The total row count, `2^k`.
    pub n: usize,
    /// Rows `[0, usable_rows)` may be written; the rest is reserved for
    /// blinding.
    pub usable_rows: usize,
    /// The closed regions, in creation order.
    pub regions: Vec<RegionShape>,
    /// The region currently being written, if any.
    pub current_region: Option<RegionShape>,
    /// The fixed cells, arranged as `[column][row]`.
    pub fixed: Vec<Vec<CellValue<V>>>,
    /// The selector flags, arranged as `[selector][row]`.
    pub selectors: Vec<Vec<bool>>,
    /// The copy (equality) constraints, in insertion order.
    pub copies: Vec<(TraceCell, TraceCell)>,
}

impl<V: AnalyzableField> Analyzable<V> {
    /// Structural well-formedness: grids are rectangular with `n` rows, the
    /// usable range is a prefix of the rows, closed regions carry dense
    /// ordinals, and at most the open region carries the next ordinal.
    pub open spec fn wf(self) -> bool {
        &&& self.usable_rows <= self.n
        &&& forall|c: int| 0 <= c < self.fixed@.len() ==> (#[trigger] self.fixed@[c])@.len() == self.n
        &&& forall|s: int|
            0 <= s < self.selectors@.len() ==> (#[trigger] self.selectors@[s])@.len() == self.n
        &&& forall|r: int|
            0 <= r < self.regions@.len() ==> (#[trigger] self.regions@[r]).wf()
                && self.regions@[r].ordinal == r
        &&& match self.current_region {
            None => true,
            Some(sh) => sh.wf() && sh.ordinal == self.regions@.len(),
        }
    }

    /// Every row recorded anywhere in the trace lies inside the usable row
    /// range, and no selector flag is set at or above it.
    pub open spec fn rows_ok(self) -> bool {
        &&& forall|r: int|
            0 <= r < self.regions@.len() ==> (#[trigger] self.regions@[r]).rows_below(
                self.usable_rows,
            )
        &&& match self.current_region {
            None => true,
            Some(sh) => sh.rows_below(self.usable_rows),
        }
        &&& forall|i: int|
            0 <= i < self.copies@.len() ==> (#[trigger] self.copies@[i]).0.row < self.usable_rows
                && self.copies@[i].1.row < self.usable_rows
        &&& forall|s: int, r: int|
            0 <= s < self.selectors@.len() && self.usable_rows <= r < self.selectors@[s]@.len()
                ==> !(#[trigger] self.selectors@[s]@[r])
    }

    /// The multiplicity already recorded by the open region for cell
    /// `(c, row)`; zero when no region is open.
    pub open spec fn open_cell_count(self, c: TraceColumn, row: usize) -> nat {
        match self.current_region {
            None => 0,
            Some(sh) => cell_count(sh.cells@, c, row),
        }
    }

    /// Allocate the trace for a run at log2 row count `k`, against a
    /// constraint system declaring `num_fixed_columns` fixed columns,
    /// `num_selectors` selectors, `blinding_factors` reserved rows and a
    /// minimum row count of `minimum_rows`. Fails, and allocates nothing,
    /// exactly when `2^k` rows are fewer than `minimum_rows`.
    pub fn new(
        k: u32,
        num_fixed_columns: usize,
        num_selectors: usize,
        blinding_factors: usize,
        minimum_rows: usize,
    ) -> (r: Result<Self, TraceError>)
        requires
            k < usize::BITS,
            blinding_factors < minimum_rows,
        ensures
            r is Err <==> (1usize << k) < minimum_rows,
            r is Err ==> r == Err::<Self, TraceError>(TraceError::NotEnoughRows { k }),
            r matches Ok(t) ==> {
                &&& t.wf()
                &&& t.rows_ok()
                &&& t.k == k
                &&& t.n == (1usize << k)
                &&& t.usable_rows == t.n - (blinding_factors + 1)
                &&& t.regions@.len() == 0
                &&& t.current_region is None
                &&& t.copies@.len() == 0
                &&& t.fixed@.len() == num_fixed_columns
                &&& forall|c: int, row: int|
                    0 <= c < t.fixed@.len() && 0 <= row < t.fixed@[c]@.len()
                        ==> (#[trigger] t.fixed@[c]@[row]) == CellValue::<V>::Unassigned
                &&& t.selectors@.len() == num_selectors
                &&& forall|s: int, row: int|
                    0 <= s < t.selectors@.len() && 0 <= row < t.selectors@[s]@.len()
                        ==> !(#[trigger] t.selectors@[s]@[row])
            },
    {
        let n: usize = 1usize << k;
        if n < minimum_rows {
            return Err(TraceError::NotEnoughRows { k });
        }
        let usable_rows = n - (blinding_factors + 1);
        let mut fixed: Vec<Vec<CellValue<V>>> = Vec::new();
        while fixed.len() < num_fixed_columns
            invariant
                fixed@.len() <= num_fixed_columns,
                forall|c: int| 0 <= c < fixed@.len() ==> (#[trigger] fixed@[c])@.len() == n,
                forall|c: int, row: int|
                    0 <= c < fixed@.len() && 0 <= row < fixed@[c]@.len()
                        ==> (#[trigger] fixed@[c]@[row]) == CellValue::<V>::Unassigned,
            decreases num_fixed_columns - fixed.len(),
        {
            let mut col: Vec<CellValue<V>> = Vec::new();
            while col.len() < n
                invariant
                    col@.len() <= n,
                    forall|row: int|
                        0 <= row < col@.len() ==> col@[row] == CellValue::<V>::Unassigned,
                decreases n - col.len(),
            {
                col.push(CellValue::Unassigned);
            }
            fixed.push(col);
        }
        let mut selectors: Vec<Vec<bool>> = Vec::new();
        while selectors.len() < num_selectors
            invariant
                selectors@.len() <= num_selectors,
                forall|s: int| 0 <= s < selectors@.len() ==> (#[trigger] selectors@[s])@.len() == n,
                forall|s: int, row: int|
                    0 <= s < selectors@.len() && 0 <= row < selectors@[s]@.len()
                        ==> !(#[trigger] selectors@[s]@[row]),
            decreases num_selectors - selectors.len(),
        {
            let mut col: Vec<bool> = Vec::new();
            while col.len() < n
                invariant
                    col@.len() <= n,
                    forall|row: int| 0 <= row < col@.len() ==> !col@[row],
                decreases n - col.len(),
            {
                col.push(false);
            }
            selectors.push(col);
        }
        Ok(
            Analyzable {
                k,
                n,
                usable_rows,
                regions: Vec::new(),
                current_region: None,
                fixed,
                selectors,
                copies: Vec::new(),
            },
        )
    }

    /// Open a region named `name`. A region must not already be open: that
    /// is a contract violation of the circuit under analysis.
    pub fn enter_region(&mut self, name: String)
        requires
            old(self).wf(),
            old(self).current_region is None,
        ensures
            final(self).wf(),
            old(self).rows_ok() ==> final(self).rows_ok(),
            final(self).k == old(self).k,
            final(self).n == old(self).n,
            final(self).usable_rows == old(self).usable_rows,
            final(self).regions == old(self).regions,
            final(self).fixed == old(self).fixed,
            final(self).selectors == old(self).selectors,
            final(self).copies == old(self).copies,
            final(self).current_region matches Some(sh) && sh.name == name && sh.ordinal == old(self).regions@.len() && sh.columns@.len() == 0 && sh.rows is None
                && sh.enabled_selectors@.len() == 0 && sh.cells@.len() == 0,
    {
        let ordinal = self.regions.len();
        self.current_region = Some(RegionShape::new(name, ordinal));
    }

    /// Close the open region and archive it in ordinal order. A region must
    /// be open: closing with none open is a contract violation.
    pub fn exit_region(&mut self)
        requires
            old(self).wf(),
            old(self).current_region is Some,
        ensures
            final(self).wf(),
            old(self).rows_ok() ==> final(self).rows_ok(),
            final(self).k == old(self).k,
            final(self).n == old(self).n,
            final(self).usable_rows == old(self).usable_rows,
            final(self).fixed == old(self).fixed,
            final(self).selectors == old(self).selectors,
            final(self).copies == old(self).copies,
            final(self).current_region is None,
            final(self).regions@ == old(self).regions@.push(
                old(self).current_region.unwrap(),
            ),
    {
        let mut taken: Option<RegionShape> = None;
        core::mem::swap(&mut taken, &mut self.current_region);
        match taken {
            Some(sh) => {
                self.regions.push(sh);
            },
            None => {
                proof {
                    assert(false);
                }
            },
        }
    }

    /// Record that selector `s` was enabled at `row`, both in the selector
    /// grid and in the open region. Fails, changing nothing, exactly when
    /// `row` is outside the usable row range. A region must be open: the
    /// host framework never enables a floating selector.
    pub fn enable_selector(&mut self, s: usize, row: usize) -> (r: Result<(), TraceError>)
        requires
            old(self).wf(),
            old(self).current_region is Some,
            s < old(self).selectors@.len(),
        ensures
            final(self).wf(),
            final(self).k == old(self).k,
            final(self).n == old(self).n,
            final(self).usable_rows == old(self).usable_rows,
            final(self).regions == old(self).regions,
            final(self).fixed == old(self).fixed,
            final(self).copies == old(self).copies,
            row >= old(self).usable_rows ==> r == Err::<(), TraceError>(
                TraceError::NotEnoughRows { k: old(self).k },
            ) && *final(self) == *old(self),
            row < old(self).usable_rows ==> {
                &&& r == Ok::<(), TraceError>(())
                &&& final(self).current_region matches Some(sh2) && spec_enable_rel(
                    old(self).current_region.unwrap(),
                    sh2,
                    s,
                    row,
                )
                &&& final(self).selectors@.len() == old(self).selectors@.len()
                &&& forall|j: int|
                    0 <= j < old(self).selectors@.len() && j != s
                        ==> #[trigger] final(self).selectors@[j] == old(self).selectors@[j]
                &&& final(self).selectors@[s as int]@ == old(self).selectors@[s as int]@.update(
                    row as int,
                    true,
                )
            },
            old(self).rows_ok() ==> final(self).rows_ok(),
    {
        if row >= self.usable_rows {
            return Err(TraceError::NotEnoughRows { k: self.k });
        }
        match &mut self.current_region {
            Some(sh) => {
                sh.enable_selector(s, row);
            },
            None => {
                proof {
                    assert(false);
                }
            },
        }
        let mut col = self.selectors.remove(s);
        col.remove(row);
        col.insert(row, true);
        self.selectors.insert(s, col);
        proof {
            assert(self.selectors@[s as int]@ =~= old(self).selectors@[s as int]@.update(
                row as int,
                true,
            ));
            assert forall|j: int|
                0 <= j < old(self).selectors@.len() && j != s implies #[trigger] self.selectors@[j]
                == old(self).selectors@[j] by {}
            if old(self).rows_ok() {
                assert forall|s2: int, r2: int|
                    0 <= s2 < self.selectors@.len() && self.usable_rows <= r2
                        < self.selectors@[s2]@.len() implies !(
                #[trigger] self.selectors@[s2]@[r2]) by {
                    if s2 == s as int {
                        assert(self.selectors@[s2]@[r2] == old(self).selectors@[s2]@[r2]);
                    }
                }
            }
        }
        Ok(())
    }

    /// Record an advice-cell write at `(column_index, row)`. The value
    /// itself is synthesis-time witness data and is not retained; the write
    /// is recorded against the open region, if any. Fails, changing
    /// nothing, exactly when `row` is outside the usable row range: a
    /// successful trace never records an out-of-range cell.
    pub fn assign_advice(&mut self, column_index: usize, row: usize) -> (r: Result<
        (),
        TraceError,
    >)
        requires
            old(self).wf(),
            row < old(self).usable_rows ==> old(self).open_cell_count(
                advice_col(column_index),
                row,
            ) < usize::MAX,
        ensures
            final(self).wf(),
            final(self).k == old(self).k,
            final(self).n == old(self).n,
            final(self).usable_rows == old(self).usable_rows,
            final(self).regions == old(self).regions,
            final(self).fixed == old(self).fixed,
            final(self).selectors == old(self).selectors,
            final(self).copies == old(self).copies,
            row >= old(self).usable_rows ==> r == Err::<(), TraceError>(
                TraceError::NotEnoughRows { k: old(self).k },
            ) && *final(self) == *old(self),
            row < old(self).usable_rows ==> {
                &&& r == Ok::<(), TraceError>(())
                &&& old(self).current_region is None ==> *final(self) == *old(self)
                &&& old(self).current_region matches Some(sh) ==> final(self).current_region matches Some(
                    sh2,
                ) && spec_write_rel(sh, sh2, advice_col(column_index), row)
            },
            old(self).rows_ok() ==> final(self).rows_ok(),
    {
        if row >= self.usable_rows {
            return Err(TraceError::NotEnoughRows { k: self.k });
        }
        let c = TraceColumn { kind: ColumnKind::Advice, index: column_index };
        match &mut self.current_region {
            Some(sh) => {
                sh.update_extent(c, row);
                sh.note_cell(c, row);
                proof {
                    lemma_note_cell_props(old(self).current_region.unwrap().cells@, c, row);
                }
            },
            None => {},
        }
        Ok(())
    }

    /// Resolve and write a fixed-cell value at `(column_index, row)`. Fails
    /// with the row-bounds error, changing nothing, when `row` is outside
    /// the usable row range; otherwise the write is recorded against the
    /// open region, and then the value lands in the fixed grid, unless it
    /// is unknown (synthesis error) or the column is out of bounds.
    pub fn assign_fixed(&mut self, column_index: usize, row: usize, value: Option<V>) -> (r:
        Result<(), TraceError>)
        requires
            old(self).wf(),
            old(self).open_cell_count(fixed_col(column_index), row) < usize::MAX,
        ensures
            final(self).wf(),
            final(self).k == old(self).k,
            final(self).n == old(self).n,
            final(self).usable_rows == old(self).usable_rows,
            final(self).regions == old(self).regions,
            final(self).selectors == old(self).selectors,
            final(self).copies == old(self).copies,
            row >= old(self).usable_rows ==> r == Err::<(), TraceError>(
                TraceError::NotEnoughRows { k: old(self).k },
            ) && *final(self) == *old(self),
            row < old(self).usable_rows ==> {
                &&& old(self).current_region is None ==> final(self).current_region is None
                &&& old(self).current_region matches Some(sh) ==> final(self).current_region matches Some(sh2) && spec_write_rel(
                    sh,
                    sh2,
                    fixed_col(column_index),
                    row,
                )
                &&& value is None ==> r == Err::<(), TraceError>(TraceError::Synthesis)
                    && final(self).fixed == old(self).fixed
                &&& value matches Some(v) ==> {
                    &&& column_index >= old(self).fixed@.len() ==> r == Err::<(), TraceError>(
                        TraceError::BoundsFailure,
                    ) && final(self).fixed == old(self).fixed
                    &&& column_index < old(self).fixed@.len() ==> {
                        &&& r == Ok::<(), TraceError>(())
                        &&& final(self).fixed@.len() == old(self).fixed@.len()
                        &&& forall|j: int|
                            0 <= j < old(self).fixed@.len() && j != column_index
                                ==> #[trigger] final(self).fixed@[j] == old(self).fixed@[j]
                        &&& final(self).fixed@[column_index as int]@ == old(self).fixed@[
                            column_index as int
                        ]@.update(row as int, CellValue::Assigned(v))
                    }
                }
            },
            old(self).rows_ok() ==> final(self).rows_ok(),
    {
        if row >= self.usable_rows {
            return Err(TraceError::NotEnoughRows { k: self.k });
        }
        let c = TraceColumn { kind: ColumnKind::Fixed, index: column_index };
        match &mut self.current_region {
            Some(sh) => {
                sh.update_extent(c, row);
                sh.note_cell(c, row);
                proof {
                    lemma_note_cell_props(old(self).current_region.unwrap().cells@, c, row);
                }
            },
            None => {},
        }
        let v = match value {
            None => {
                return Err(TraceError::Synthesis);
            },
            Some(v) => v,
        };
        if column_index >= self.fixed.len() {
            return Err(TraceError::BoundsFailure);
        }
        let mut col = self.fixed.remove(column_index);
        col.remove(row);
        col.insert(row, CellValue::Assigned(v));
        self.fixed.insert(column_index, col);
        proof {
            assert(self.fixed@[column_index as int]@ =~= old(self).fixed@[
                column_index as int
            ]@.update(row as int, CellValue::Assigned(v)));
            assert forall|j: int|
                0 <= j < old(self).fixed@.len() && j != column_index implies #[trigger] self.fixed@[j]
                == old(self).fixed@[j] by {}
        }
        Ok(())
    }

    /// Record a copy (equality) constraint between two cells. Fails,
    /// changing nothing, exactly when either endpoint's row is outside the
    /// usable row range.
    pub fn copy(
        &mut self,
        left_column: TraceColumn,
        left_row: usize,
        right_column: TraceColumn,
        right_row: usize,
    ) -> (r: Result<(), TraceError>)
        requires
            old(self).wf(),
        ensures
            final(self).wf(),
            final(self).k == old(self).k,
            final(self).n == old(self).n,
            final(self).usable_rows == old(self).usable_rows,
            final(self).regions == old(self).regions,
            final(self).current_region == old(self).current_region,
            final(self).fixed == old(self).fixed,
            final(self).selectors == old(self).selectors,
            (left_row >= old(self).usable_rows || right_row >= old(self).usable_rows) ==> r
                == Err::<(), TraceError>(TraceError::NotEnoughRows { k: old(self).k })
                && *final(self) == *old(self),
            (left_row < old(self).usable_rows && right_row < old(self).usable_rows) ==> {
                &&& r == Ok::<(), TraceError>(())
                &&& final(self).copies@ == old(self).copies@.push(
                    (
                        (TraceCell { column: left_column, row: left_row }),
                        (TraceCell { column: right_column, row: right_row }),
                    ),
                )
            },
            old(self).rows_ok() ==> final(self).rows_ok(),
    {
        if left_row >= self.usable_rows || right_row >= self.usable_rows {
            return Err(TraceError::NotEnoughRows { k: self.k });
        }
        self.copies.push(
            (
                TraceCell { column: left_column, row: left_row },
                TraceCell { column: right_column, row: right_row },
            ),
        );
        Ok(())
    }

    /// Write the same fixed-cell value into `column_index` at every row
    /// from `from_row` to the end of the usable row range, recording each
    /// write against the open region. Fails, changing nothing, when
    /// `from_row` is outside the usable row range.
    pub fn fill_from_row(&mut self, column_index: usize, from_row: usize, value: Option<V>) -> (r:
        Result<(), TraceError>)
        requires
            old(self).wf(),
            forall|row: usize|
                from_row <= row < old(self).usable_rows ==> #[trigger] old(self).open_cell_count(
                    fixed_col(column_index),
                    row,
                ) < usize::MAX,
        ensures
            final(self).wf(),
            final(self).k == old(self).k,
            final(self).n == old(self).n,
            final(self).usable_rows == old(self).usable_rows,
            final(self).regions == old(self).regions,
            final(self).selectors == old(self).selectors,
            final(self).copies == old(self).copies,
            from_row >= old(self).usable_rows ==> r == Err::<(), TraceError>(
                TraceError::NotEnoughRows { k: old(self).k },
            ) && *final(self) == *old(self),
            from_row < old(self).usable_rows ==> {
                &&& old(self).current_region is None ==> final(self).current_region is None
                &&& value is None ==> r == Err::<(), TraceError>(TraceError::Synthesis)
                    && final(self).fixed == old(self).fixed && (old(self).current_region matches Some(sh) ==> final(self).current_region matches Some(sh2)
                    && spec_write_rel(sh, sh2, fixed_col(column_index), from_row))
                &&& value matches Some(v) ==> {
                    &&& column_index >= old(self).fixed@.len() ==> r == Err::<(), TraceError>(
                        TraceError::BoundsFailure,
                    ) && final(self).fixed == old(self).fixed && (old(self).current_region matches Some(sh) ==> final(self).current_region matches Some(
                        sh2,
                    ) && spec_write_rel(sh, sh2, fixed_col(column_index), from_row))
                    &&& column_index < old(self).fixed@.len() ==> {
                        &&& r == Ok::<(), TraceError>(())
                        &&& final(self).fixed@.len() == old(self).fixed@.len()
                        &&& forall|j: int|
                            0 <= j < old(self).fixed@.len() && j != column_index
                                ==> #[trigger] final(self).fixed@[j] == old(self).fixed@[j]
                        &&& final(self).fixed@[column_index as int]@.len() == old(self).fixed@[
                            column_index as int
                        ]@.len()
                        &&& forall|row: int|
                            0 <= row < old(self).fixed@[column_index as int]@.len() ==> (
                            #[trigger] final(self).fixed@[column_index as int]@[row]) == (if from_row
                                <= row < old(self).usable_rows {
                                CellValue::Assigned(v)
                            } else {
                                old(self).fixed@[column_index as int]@[row]
                            })
                        &&& old(self).current_region matches Some(sh) ==> final(self).current_region matches Some(sh2) && sh2.name == sh.name && sh2.ordinal
                            == sh.ordinal && sh2.enabled_selectors == sh.enabled_selectors
                            && sh2.columns@ == spec_insert_column(
                            sh.columns@,
                            fixed_col(column_index),
                        ) && sh2.rows == spec_fill_extent(
                            sh.rows,
                            from_row,
                            old(self).usable_rows,
                        ) && sh2.cells@ == spec_fill_cells(
                            sh.cells@,
                            fixed_col(column_index),
                            from_row,
                            old(self).usable_rows,
                        )
                    }
                }
            },
            old(self).rows_ok() ==> final(self).rows_ok(),
    {
        if from_row >= self.usable_rows {
            return Err(TraceError::NotEnoughRows { k: self.k });
        }
        let ghost c = fixed_col(column_index);
        let upto = self.usable_rows;
        let mut row = from_row;
        proof {
            if old(self).current_region is Some {
                let sh0 = old(self).current_region.unwrap();
                lemma_fill_cells_props(sh0.cells@, c, from_row, row);
            }
        }
        while row < upto
            invariant
                from_row <= row <= upto,
                upto == self.usable_rows,
                old(self).wf(),
                from_row < old(self).usable_rows,
                c == fixed_col(column_index),
                self.wf(),
                self.k == old(self).k,
                self.n == old(self).n,
                self.usable_rows == old(self).usable_rows,
                self.regions == old(self).regions,
                self.selectors == old(self).selectors,
                self.copies == old(self).copies,
                old(self).current_region is None ==> self.current_region is None,
                old(self).rows_ok() ==> self.rows_ok(),
                row > from_row ==> (value is Some && (column_index as int)
                    < old(self).fixed@.len()),
                row == from_row ==> self.fixed == old(self).fixed && self.current_region == old(
                    self,
                ).current_region,
                old(self).current_region matches Some(sh) ==> self.current_region matches Some(sh2)
                    && sh2.name == sh.name && sh2.ordinal == sh.ordinal && sh2.enabled_selectors
                    == sh.enabled_selectors && sh2.columns@ == (if row == from_row {
                    sh.columns@
                } else {
                    spec_insert_column(sh.columns@, c)
                }) && sh2.rows == spec_fill_extent(sh.rows, from_row, row) && sh2.cells@
                    == spec_fill_cells(sh.cells@, c, from_row, row),
                self.fixed@.len() == old(self).fixed@.len(),
                forall|j: int|
                    0 <= j < old(self).fixed@.len() && j != column_index
                        ==> #[trigger] self.fixed@[j] == old(self).fixed@[j],
                (column_index as int) < old(self).fixed@.len() ==> {
                    &&& self.fixed@[column_index as int]@.len() == old(self).fixed@[
                        column_index as int
                    ]@.len()
                    &&& forall|r2: int|
                        0 <= r2 < old(self).fixed@[column_index as int]@.len() ==> (
                        #[trigger] self.fixed@[column_index as int]@[r2]) == (if from_row <= r2
                            < row && value is Some {
                            CellValue::Assigned(value.unwrap())
                        } else {
                            old(self).fixed@[column_index as int]@[r2]
                        })
                },
                (column_index as int) >= old(self).fixed@.len() ==> self.fixed == old(self).fixed,
                forall|r2: usize|
                    from_row <= r2 < old(self).usable_rows ==> #[trigger] old(self).open_cell_count(c, r2) < usize::MAX,
            decreases upto - row,
        {
            proof {
                assert(old(self).open_cell_count(c, row) < usize::MAX);
                if self.current_region is Some {
                    let sh0 = old(self).current_region.unwrap();
                    lemma_fill_cells_props(sh0.cells@, c, from_row, row);
                    assert(cell_count(spec_fill_cells(sh0.cells@, c, from_row, row), c, row)
                        == cell_count(sh0.cells@, c, row));
                    assert(self.open_cell_count(c, row) == old(self).open_cell_count(c, row));
                }
            }
            let step = self.assign_fixed(column_index, row, value);
            proof {
                if old(self).current_region is Some {
                    let sh0 = old(self).current_region.unwrap();
                    lemma_fill_cells_snoc(sh0.cells@, c, from_row, row);
                    lemma_fill_extent_snoc(sh0.rows, from_row, row);
                    if row > from_row {
                        lemma_insert_column_idem(sh0.columns@, c);
                    }
                }
            }
            match step {
                Ok(()) => {},
                Err(e) => {
                    return Err(e);
                },
            }
            row = row + 1;
        }
        Ok(())
    }

    /// Compress the selector grid into additional fixed columns, one per
    /// selector, holding `one` where the selector is enabled and `zero`
    /// elsewhere. The regions, the selector grid and the copy set are
    /// untouched: compression only appends fixed columns.
    pub fn compress_selectors(&mut self, zero: V, one: V)
        requires
            old(self).wf(),
        ensures
            final(self).wf(),
            final(self).k == old(self).k,
            final(self).n == old(self).n,
            final(self).usable_rows == old(self).usable_rows,
            final(self).regions == old(self).regions,
            final(self).current_region == old(self).current_region,
            final(self).selectors == old(self).selectors,
            final(self).copies == old(self).copies,
            final(self).fixed@.len() == old(self).fixed@.len() + old(self).selectors@.len(),
            forall|j: int|
                0 <= j < old(self).fixed@.len() ==> #[trigger] final(self).fixed@[j] == old(self).fixed@[j],
            forall|s: int, row: int|
                0 <= s < old(self).selectors@.len() && 0 <= row < old(self).n ==> (#[trigger] final(self).fixed@[old(self).fixed@.len() + s]@[row]) == CellValue::Assigned(
                    if old(self).selectors@[s]@[row] {
                        one
                    } else {
                        zero
                    },
                ),
            forall|s: int|
                0 <= s < old(self).selectors@.len() ==> (#[trigger] final(self).fixed@[old(self).fixed@.len() + s])@.len() == old(self).n,
            old(self).rows_ok() ==> final(self).rows_ok(),
    {
        let num = self.selectors.len();
        let mut s: usize = 0;
        while s < num
            invariant
                0 <= s <= num,
                num == old(self).selectors@.len(),
                self.k == old(self).k,
                self.n == old(self).n,
                self.usable_rows == old(self).usable_rows,
                self.regions == old(self).regions,
                self.current_region == old(self).current_region,
                self.selectors == old(self).selectors,
                self.copies == old(self).copies,
                self.wf(),
                old(self).rows_ok() ==> self.rows_ok(),
                self.fixed@.len() == old(self).fixed@.len() + s,
                forall|j: int|
                    0 <= j < old(self).fixed@.len() ==> #[trigger] self.fixed@[j] == old(self).fixed@[j],
                forall|s2: int, row: int|
                    0 <= s2 < s && 0 <= row < old(self).n ==> (#[trigger] self.fixed@[old(self).fixed@.len() + s2]@[row]) == CellValue::Assigned(
                        if old(self).selectors@[s2]@[row] {
                            one
                        } else {
                            zero
                        },
                    ),
                forall|s2: int|
                    0 <= s2 < s ==> (#[trigger] self.fixed@[old(self).fixed@.len() + s2])@.len()
                        == old(self).n,
            decreases num - s,
        {
            let n = self.n;
            let mut col: Vec<CellValue<V>> = Vec::new();
            let mut row: usize = 0;
            while row < n
                invariant
                    0 <= row <= n,
                    n == old(self).n,
                    0 <= s < num,
                    num == self.selectors@.len(),
                    self.selectors == old(self).selectors,
                    self.wf(),
                    self.n == old(self).n,
                    col@.len() == row,
                    forall|r2: int|
                        0 <= r2 < row ==> #[trigger] col@[r2] == CellValue::Assigned(
                            if self.selectors@[s as int]@[r2] {
                                one
                            } else {
                                zero
                            },
                        ),
                decreases n - row,
            {
                let flag = self.selectors[s][row];
                if flag {
                    col.push(CellValue::Assigned(one));
                } else {
                    col.push(CellValue::Assigned(zero));
                }
                row = row + 1;
            }
            self.fixed.push(col);
            s = s + 1;
        }
    }
}

} // verus!
