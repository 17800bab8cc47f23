//! One region's identity and the capability-level writes issued inside it.

use vstd::prelude::*;

use crate::column::TraceColumn;

verus! {

/// A mutable record of one region: its name, its creation ordinal, the
/// columns it touches, the inclusive row extent observed so far, the rows at
/// which each selector was enabled, and a write-multiplicity counter for each
/// touched cell.
#[derive(Debug, PartialEq)]
pub struct RegionShape {
    pub name: String,
    pub ordinal: usize,
    pub columns: Vec<TraceColumn>,
    pub rows: Option<(usize, usize)>,
    pub enabled_selectors: Vec<(usize, Vec<usize>)>,
    pub cells: Vec<(TraceColumn, usize, usize)>,
}

/// Whether `c` occurs in `cols`.
pub open spec fn contains_column(cols: Seq<TraceColumn>, c: TraceColumn) -> bool {
    exists|i: int| 0 <= i < cols.len() && cols[i] == c
}

/// `cols` with `c` appended unless it is already present.
pub open spec fn spec_insert_column(cols: Seq<TraceColumn>, c: TraceColumn) -> Seq<TraceColumn> {
    if contains_column(cols, c) {
        cols
    } else {
        cols.push(c)
    }
}

/// The inclusive row extent after one more observation of `row`.
pub open spec fn spec_extend_rows(rows: Option<(usize, usize)>, row: usize) -> Option<(
    usize,
    usize,
)> {
    match rows {
        None => Some((row, row)),
        Some((lo, hi)) => Some(
            ((if row < lo { row } else { lo }), (if row > hi { row } else { hi })),
        ),
    }
}

/// The multiplicity table has at most one entry per cell.
pub open spec fn cells_unique(cells: Seq<(TraceColumn, usize, usize)>) -> bool {
    forall|i: int, j: int|
        0 <= i < j < cells.len() ==> !((#[trigger] cells[i]).0 == (#[trigger] cells[j]).0
            && cells[i].1 == cells[j].1)
}

/// Whether the multiplicity table holds an entry for cell `(c, row)`.
pub open spec fn has_cell(
    cells: Seq<(TraceColumn, usize, usize)>,
    c: TraceColumn,
    row: usize,
) -> bool {
    exists|i: int| 0 <= i < cells.len() && (#[trigger] cells[i]).0 == c && cells[i].1 == row
}

/// The index of the entry for cell `(c, row)`; meaningful when the keys are
/// unique and the entry exists.
pub open spec fn cell_slot(
    cells: Seq<(TraceColumn, usize, usize)>,
    c: TraceColumn,
    row: usize,
) -> int {
    choose|i: int| 0 <= i < cells.len() && (#[trigger] cells[i]).0 == c && cells[i].1 == row
}

/// The multiplicity recorded for cell `(c, row)`, zero when absent.
pub open spec fn cell_count(
    cells: Seq<(TraceColumn, usize, usize)>,
    c: TraceColumn,
    row: usize,
) -> nat {
    if has_cell(cells, c, row) {
        cells[cell_slot(cells, c, row)].2 as nat
    } else {
        0
    }
}

/// The multiplicity table after one more write to cell `(c, row)`: the
/// existing entry is incremented, or a fresh entry with count 1 is appended.
pub open spec fn spec_note_cell(
    cells: Seq<(TraceColumn, usize, usize)>,
    c: TraceColumn,
    row: usize,
) -> Seq<(TraceColumn, usize, usize)> {
    if has_cell(cells, c, row) {
        let i = cell_slot(cells, c, row);
        cells.update(i, (c, row, (cells[i].2 + 1) as usize))
    } else {
        cells.push((c, row, 1))
    }
}

/// The enabled-selector table has at most one row list per selector.
pub open spec fn selectors_unique(sels: Seq<(usize, Vec<usize>)>) -> bool {
    forall|i: int, j: int|
        0 <= i < j < sels.len() ==> (#[trigger] sels[i]).0 != (#[trigger] sels[j]).0
}

/// Whether the enabled-selector table holds a row list for selector `s`.
pub open spec fn has_selector(sels: Seq<(usize, Vec<usize>)>, s: usize) -> bool {
    exists|i: int| 0 <= i < sels.len() && (#[trigger] sels[i]).0 == s
}

/// The index of selector `s` in the enabled-selector table; meaningful when
/// the keys are unique and the selector is present.
pub open spec fn selector_slot(sels: Seq<(usize, Vec<usize>)>, s: usize) -> int {
    choose|i: int| 0 <= i < sels.len() && (#[trigger] sels[i]).0 == s
}

/// The ordered list of rows recorded for selector `s`, empty when absent.
pub open spec fn selector_rows(sels: Seq<(usize, Vec<usize>)>, s: usize) -> Seq<usize> {
    if has_selector(sels, s) {
        sels[selector_slot(sels, s)].1@
    } else {
        Seq::<usize>::empty()
    }
}

/// How one capability-level write to cell `(c, row)` changes a shape: the
/// column joins the touched set, the extent widens to cover `row`, the
/// cell's multiplicity rises by one, and everything else stays.
pub open spec fn spec_write_rel(
    pre: RegionShape,
    post: RegionShape,
    c: TraceColumn,
    row: usize,
) -> bool {
    &&& post.name == pre.name
    &&& post.ordinal == pre.ordinal
    &&& post.enabled_selectors == pre.enabled_selectors
    &&& post.columns@ == spec_insert_column(pre.columns@, c)
    &&& post.rows == spec_extend_rows(pre.rows, row)
    &&& post.cells@ == spec_note_cell(pre.cells@, c, row)
}

/// How enabling selector `s` at `row` changes a shape: `row` is appended to
/// the ordered row list kept for `s`, and everything else stays.
pub open spec fn spec_enable_rel(
    pre: RegionShape,
    post: RegionShape,
    s: usize,
    row: usize,
) -> bool {
    &&& post.name == pre.name
    &&& post.ordinal == pre.ordinal
    &&& post.columns == pre.columns
    &&& post.rows == pre.rows
    &&& post.cells == pre.cells
    &&& has_selector(pre.enabled_selectors@, s) ==> {
        let slot = selector_slot(pre.enabled_selectors@, s);
        &&& post.enabled_selectors@.len() == pre.enabled_selectors@.len()
        &&& forall|j: int|
            0 <= j < pre.enabled_selectors@.len() && j != slot
                ==> #[trigger] post.enabled_selectors@[j] == pre.enabled_selectors@[j]
        &&& post.enabled_selectors@[slot].0 == s
        &&& post.enabled_selectors@[slot].1@ == pre.enabled_selectors@[slot].1@.push(row)
    }
    &&& !has_selector(pre.enabled_selectors@, s) ==> {
        &&& post.enabled_selectors@.len() == pre.enabled_selectors@.len() + 1
        &&& forall|j: int|
            0 <= j < pre.enabled_selectors@.len() ==> #[trigger] post.enabled_selectors@[j]
                == pre.enabled_selectors@[j]
        &&& post.enabled_selectors@.last().0 == s
        &&& post.enabled_selectors@.last().1@ == seq![row]
    }
    &&& selector_rows(post.enabled_selectors@, s) == selector_rows(
        pre.enabled_selectors@,
        s,
    ).push(row)
}

impl RegionShape {
    /// Keys of the multiplicity table are unique, keys of the
    /// enabled-selector table are unique, and the row extent is ordered.
    pub open spec fn wf(self) -> bool {
        &&& cells_unique(self.cells@)
        &&& selectors_unique(self.enabled_selectors@)
        &&& match self.rows {
            None => true,
            Some((lo, hi)) => lo <= hi,
        }
    }

    /// Every row this region records (extent, selector rows, cell rows) lies
    /// below `limit`.
    pub open spec fn rows_below(self, limit: usize) -> bool {
        &&& match self.rows {
            None => true,
            Some((lo, hi)) => hi < limit,
        }
        &&& forall|i: int, j: int|
            0 <= i < self.enabled_selectors@.len() && 0 <= j < (
            #[trigger] self.enabled_selectors@[i]).1@.len()
                ==> #[trigger] self.enabled_selectors@[i].1@[j] < limit
        &&& forall|i: int| 0 <= i < self.cells@.len() ==> (#[trigger] self.cells@[i]).1 < limit
    }

    /// A fresh, empty shape for a region named `name` with creation ordinal
    /// `ordinal`.
    pub fn new(name: String, ordinal: usize) -> (shape: Self)
        ensures
            shape.wf(),
            shape.name == name,
            shape.ordinal == ordinal,
            shape.columns@ == Seq::<TraceColumn>::empty(),
            shape.rows is None,
            shape.enabled_selectors@ == Seq::<(usize, Vec<usize>)>::empty(),
            shape.cells@ == Seq::<(TraceColumn, usize, usize)>::empty(),
    {
        RegionShape {
            name,
            ordinal,
            columns: Vec::new(),
            rows: None,
            enabled_selectors: Vec::new(),
            cells: Vec::new(),
        }
    }

    /// The position of the multiplicity entry for cell `(c, row)`, if any.
    fn find_cell(&self, c: TraceColumn, row: usize) -> (r: Option<usize>)
        ensures
            match r {
                Some(i) => i < self.cells@.len() && self.cells@[i as int].0 == c
                    && self.cells@[i as int].1 == row,
                None => !has_cell(self.cells@, c, row),
            },
    {
        let n = self.cells.len();
        let mut i: usize = 0;
        while i < n
            invariant
                0 <= i <= n,
                n == self.cells@.len(),
                forall|j: int|
                    0 <= j < i ==> !((#[trigger] self.cells@[j]).0 == c && self.cells@[j].1
                        == row),
            decreases n - i,
        {
            let (cc, rr, _count) = self.cells[i];
            if cc == c && rr == row {
                return Some(i);
            }
            i += 1;
        }
        proof {
            assert(!has_cell(self.cells@, c, row)) by {
                if has_cell(self.cells@, c, row) {
                    let w = choose|w: int|
                        0 <= w < self.cells@.len() && (#[trigger] self.cells@[w]).0 == c
                            && self.cells@[w].1 == row;
                    assert(!(self.cells@[w].0 == c && self.cells@[w].1 == row));
                }
            }
        }
        None
    }

    /// The position of the row list for selector `s`, if any.
    fn find_selector(&self, s: usize) -> (r: Option<usize>)
        ensures
            match r {
                Some(i) => i < self.enabled_selectors@.len() && self.enabled_selectors@[i as int].0
                    == s,
                None => !has_selector(self.enabled_selectors@, s),
            },
    {
        let n = self.enabled_selectors.len();
        let mut i: usize = 0;
        while i < n
            invariant
                0 <= i <= n,
                n == self.enabled_selectors@.len(),
                forall|j: int| 0 <= j < i ==> (#[trigger] self.enabled_selectors@[j]).0 != s,
            decreases n - i,
        {
            if self.enabled_selectors[i].0 == s {
                return Some(i);
            }
            i += 1;
        }
        proof {
            assert(!has_selector(self.enabled_selectors@, s)) by {
                if has_selector(self.enabled_selectors@, s) {
                    let w = choose|w: int|
                        0 <= w < self.enabled_selectors@.len() && (
                        #[trigger] self.enabled_selectors@[w]).0 == s;
                    assert(self.enabled_selectors@[w].0 != s);
                }
            }
        }
        None
    }

    /// Record that column `c` is touched at `row`: the column joins the
    /// touched set and the inclusive row extent is widened to cover `row`.
    pub fn update_extent(&mut self, c: TraceColumn, row: usize)
        requires
            old(self).wf(),
        ensures
            final(self).wf(),
            final(self).name == old(self).name,
            final(self).ordinal == old(self).ordinal,
            final(self).columns@ == spec_insert_column(old(self).columns@, c),
            final(self).rows == spec_extend_rows(old(self).rows, row),
            final(self).enabled_selectors == old(self).enabled_selectors,
            final(self).cells == old(self).cells,
    {
        let n = self.columns.len();
        let mut found = false;
        let mut i: usize = 0;
        while i < n
            invariant
                0 <= i <= n,
                n == self.columns@.len(),
                found <==> exists|j: int| 0 <= j < i && #[trigger] self.columns@[j] == c,
            decreases n - i,
        {
            if self.columns[i] == c {
                found = true;
            }
            i += 1;
        }
        proof {
            assert(found <==> contains_column(self.columns@, c));
        }
        if !found {
            self.columns.push(c);
        }
        self.rows = match self.rows {
            None => Some((row, row)),
            Some((lo, hi)) => Some(
                (if row < lo { row } else { lo }, if row > hi { row } else { hi }),
            ),
        };
    }

    /// Record one more write to cell `(c, row)` in the multiplicity table.
    pub fn note_cell(&mut self, c: TraceColumn, row: usize)
        requires
            old(self).wf(),
            cell_count(old(self).cells@, c, row) < usize::MAX,
        ensures
            final(self).wf(),
            final(self).name == old(self).name,
            final(self).ordinal == old(self).ordinal,
            final(self).columns == old(self).columns,
            final(self).rows == old(self).rows,
            final(self).enabled_selectors == old(self).enabled_selectors,
            final(self).cells@ == spec_note_cell(old(self).cells@, c, row),
    {
        let ghost cells0 = self.cells@;
        match self.find_cell(c, row) {
            Some(i) => {
                proof {
                    assert(has_cell(cells0, c, row));
                    let k = cell_slot(cells0, c, row);
                    assert(0 <= k < cells0.len() && cells0[k].0 == c && cells0[k].1 == row);
                    assert(k == i as int) by {
                        if k < i as int {
                            assert(!(cells0[k].0 == cells0[i as int].0 && cells0[k].1
                                == cells0[i as int].1));
                        } else if k > i as int {
                            assert(!(cells0[i as int].0 == cells0[k].0 && cells0[i as int].1
                                == cells0[k].1));
                        }
                    }
                }
                let (_cc, _rr, count) = self.cells.remove(i);
                proof {
                    assert(count == cells0[i as int].2);
                    assert(count < usize::MAX);
                }
                self.cells.insert(i, (c, row, count + 1));
                proof {
                    assert(self.cells@ =~= cells0.update(
                        i as int,
                        (c, row, (cells0[i as int].2 + 1) as usize),
                    ));
                    assert(cells_unique(self.cells@)) by {
                        assert forall|x: int, y: int|
                            0 <= x < y < self.cells@.len() implies !((#[trigger] self.cells@[x]).0
                            == (#[trigger] self.cells@[y]).0 && self.cells@[x].1
                            == self.cells@[y].1) by {
                            assert(self.cells@[x].0 == cells0[x].0 && self.cells@[x].1
                                == cells0[x].1);
                            assert(self.cells@[y].0 == cells0[y].0 && self.cells@[y].1
                                == cells0[y].1);
                            assert(!(cells0[x].0 == cells0[y].0 && cells0[x].1 == cells0[y].1));
                        }
                    }
                }
            },
            None => {
                self.cells.push((c, row, 1));
                proof {
                    assert(self.cells@ == cells0.push((c, row, 1)));
                    assert(cells_unique(self.cells@)) by {
                        assert forall|x: int, y: int|
                            0 <= x < y < self.cells@.len() implies !((#[trigger] self.cells@[x]).0
                            == (#[trigger] self.cells@[y]).0 && self.cells@[x].1
                            == self.cells@[y].1) by {
                            if y < cells0.len() {
                                assert(!(cells0[x].0 == cells0[y].0 && cells0[x].1 == cells0[y].1));
                            } else {
                                assert(self.cells@[y] == (c, row, 1usize));
                                assert(!(cells0[x].0 == c && cells0[x].1 == row));
                            }
                        }
                    }
                }
            },
        }
    }

    /// Record that selector `s` was enabled at `row`: `row` is appended to
    /// the ordered row list kept for `s`.
    pub fn enable_selector(&mut self, s: usize, row: usize)
        requires
            old(self).wf(),
        ensures
            final(self).wf(),
            spec_enable_rel(*old(self), *final(self), s, row),
    {
        let ghost sels0 = self.enabled_selectors@;
        match self.find_selector(s) {
            Some(i) => {
                proof {
                    assert(has_selector(sels0, s));
                    let k = selector_slot(sels0, s);
                    assert(0 <= k < sels0.len() && sels0[k].0 == s);
                    assert(k == i as int) by {
                        if k < i as int {
                            assert(sels0[k].0 != sels0[i as int].0);
                        } else if k > i as int {
                            assert(sels0[i as int].0 != sels0[k].0);
                        }
                    }
                }
                let (_ss, mut rows_list) = self.enabled_selectors.remove(i);
                rows_list.push(row);
                self.enabled_selectors.insert(i, (s, rows_list));
                proof {
                    assert forall|j: int|
                        0 <= j < sels0.len() && j != i as int
                        implies #[trigger] self.enabled_selectors@[j] == sels0[j] by {
                        if j < i as int {
                            assert(self.enabled_selectors@[j] == sels0[j]);
                        } else {
                            assert(self.enabled_selectors@[j] == sels0[j]);
                        }
                    }
                    assert(selectors_unique(self.enabled_selectors@)) by {
                        assert forall|x: int, y: int|
                            0 <= x < y < self.enabled_selectors@.len() implies (
                        #[trigger] self.enabled_selectors@[x]).0 != (
                        #[trigger] self.enabled_selectors@[y]).0 by {
                            assert(self.enabled_selectors@[x].0 == sels0[x].0);
                            assert(self.enabled_selectors@[y].0 == sels0[y].0);
                        }
                    }
                    assert(self.enabled_selectors@[i as int].0 == s);
                    assert(has_selector(self.enabled_selectors@, s));
                    let k2 = selector_slot(self.enabled_selectors@, s);
                    assert(0 <= k2 < self.enabled_selectors@.len() && self.enabled_selectors@[k2].0
                        == s);
                    assert(k2 == i as int) by {
                        if k2 != i as int {
                            assert(self.enabled_selectors@[k2].0 == sels0[k2].0);
                            assert(sels0[k2].0 != sels0[i as int].0 || k2 == i as int);
                        }
                    }
                }
            },
            None => {
                let mut fresh_rows: Vec<usize> = Vec::new();
                fresh_rows.push(row);
                self.enabled_selectors.push((s, fresh_rows));
                proof {
                    assert(self.enabled_selectors@.last().1@ =~= seq![row]);
                    assert(selectors_unique(self.enabled_selectors@)) by {
                        assert forall|x: int, y: int|
                            0 <= x < y < self.enabled_selectors@.len() implies (
                        #[trigger] self.enabled_selectors@[x]).0 != (
                        #[trigger] self.enabled_selectors@[y]).0 by {
                            if y < sels0.len() {
                                assert(sels0[x].0 != sels0[y].0);
                            } else {
                                assert(self.enabled_selectors@[y].0 == s);
                                assert(self.enabled_selectors@[x] == sels0[x]);
                                assert(sels0[x].0 != s);
                            }
                        }
                    }
                    assert(self.enabled_selectors@[self.enabled_selectors@.len() - 1].0 == s);
                    assert(has_selector(self.enabled_selectors@, s));
                    let k = selector_slot(self.enabled_selectors@, s);
                    assert(0 <= k < self.enabled_selectors@.len() && self.enabled_selectors@[k].0
                        == s);
                    assert(k == self.enabled_selectors@.len() - 1) by {
                        if k < self.enabled_selectors@.len() - 1 {
                            assert(self.enabled_selectors@[k] == sels0[k]);
                            assert(sels0[k].0 != s);
                        }
                    }
                    assert(selector_rows(sels0, s) =~= Seq::<usize>::empty());
                    assert(selector_rows(self.enabled_selectors@, s) =~= selector_rows(
                        sels0,
                        s,
                    ).push(row));
                }
            },
        }
    }
}

/// Inserting a column twice is the same as inserting it once.
pub proof fn lemma_insert_column_idem(cols: Seq<TraceColumn>, c: TraceColumn)
    ensures
        spec_insert_column(spec_insert_column(cols, c), c) == spec_insert_column(cols, c),
{
    if !contains_column(cols, c) {
        assert(spec_insert_column(cols, c)[cols.len() as int] == c);
        assert(contains_column(spec_insert_column(cols, c), c));
    }
}

/// What one more recorded write does to the multiplicity table: keys stay
/// unique, the written cell's count rises by one, every other count is
/// untouched, and every entry is either an old entry or sits at `row`.
pub proof fn lemma_note_cell_props(cells: Seq<(TraceColumn, usize, usize)>, c: TraceColumn, row: usize)
    requires
        cells_unique(cells),
    ensures
        cells_unique(spec_note_cell(cells, c, row)),
        cell_count(cells, c, row) < usize::MAX ==> cell_count(spec_note_cell(cells, c, row), c, row)
            == cell_count(cells, c, row) + 1,
        forall|c2: TraceColumn, r2: usize|
            !(c2 == c && r2 == row) ==> #[trigger] cell_count(spec_note_cell(cells, c, row), c2, r2)
                == cell_count(cells, c2, r2),
        forall|i: int|
            0 <= i < spec_note_cell(cells, c, row).len() ==> (#[trigger] spec_note_cell(
                cells,
                c,
                row,
            )[i]).1 == row || (0 <= i < cells.len() && spec_note_cell(cells, c, row)[i]
                == cells[i]),
{
    let post = spec_note_cell(cells, c, row);
    if has_cell(cells, c, row) {
        let slot = cell_slot(cells, c, row);
        assert(0 <= slot < cells.len() && cells[slot].0 == c && cells[slot].1 == row);
        assert forall|x: int, y: int|
            0 <= x < y < post.len() implies !((#[trigger] post[x]).0 == (#[trigger] post[y]).0
            && post[x].1 == post[y].1) by {
            assert(post[x].0 == cells[x].0 && post[x].1 == cells[x].1);
            assert(post[y].0 == cells[y].0 && post[y].1 == cells[y].1);
        }
        assert(post[slot].0 == c && post[slot].1 == row);
        assert(has_cell(post, c, row));
        let pslot = cell_slot(post, c, row);
        assert(0 <= pslot < post.len() && post[pslot].0 == c && post[pslot].1 == row);
        assert(pslot == slot) by {
            if pslot < slot {
                assert(!(post[pslot].0 == post[slot].0 && post[pslot].1 == post[slot].1));
            } else if pslot > slot {
                assert(!(post[slot].0 == post[pslot].0 && post[slot].1 == post[pslot].1));
            }
        }
        assert forall|c2: TraceColumn, r2: usize|
            !(c2 == c && r2 == row) implies #[trigger] cell_count(post, c2, r2) == cell_count(
            cells,
            c2,
            r2,
        ) by {
            if has_cell(cells, c2, r2) {
                let s2 = cell_slot(cells, c2, r2);
                assert(0 <= s2 < cells.len() && cells[s2].0 == c2 && cells[s2].1 == r2);
                assert(s2 != slot);
                assert(post[s2] == cells[s2]);
                assert(has_cell(post, c2, r2));
                let w2 = cell_slot(post, c2, r2);
                assert(0 <= w2 < post.len() && post[w2].0 == c2 && post[w2].1 == r2);
                assert(w2 == s2) by {
                    if w2 < s2 {
                        assert(!(post[w2].0 == post[s2].0 && post[w2].1 == post[s2].1));
                    } else if w2 > s2 {
                        assert(!(post[s2].0 == post[w2].0 && post[s2].1 == post[w2].1));
                    }
                }
            } else {
                assert(!has_cell(post, c2, r2)) by {
                    if has_cell(post, c2, r2) {
                        let w2 = cell_slot(post, c2, r2);
                        assert(0 <= w2 < post.len() && post[w2].0 == c2 && post[w2].1 == r2);
                        assert(post[w2].0 == cells[w2].0 && post[w2].1 == cells[w2].1);
                        assert(has_cell(cells, c2, r2));
                    }
                }
            }
        }
    } else {
        assert(post == cells.push((c, row, 1)));
        assert forall|x: int, y: int|
            0 <= x < y < post.len() implies !((#[trigger] post[x]).0 == (#[trigger] post[y]).0
            && post[x].1 == post[y].1) by {
            if y < cells.len() {
                assert(!(cells[x].0 == cells[y].0 && cells[x].1 == cells[y].1));
            } else {
                assert(post[y] == (c, row, 1usize));
                assert(post[x] == cells[x]);
                assert(!(cells[x].0 == c && cells[x].1 == row));
            }
        }
        assert(post[cells.len() as int].0 == c && post[cells.len() as int].1 == row);
        assert(has_cell(post, c, row));
        let pslot = cell_slot(post, c, row);
        assert(0 <= pslot < post.len() && post[pslot].0 == c && post[pslot].1 == row);
        assert(pslot == cells.len() as int) by {
            if pslot < cells.len() {
                assert(post[pslot] == cells[pslot]);
                assert(has_cell(cells, c, row));
            }
        }
        assert(cell_count(post, c, row) == 1);
        assert forall|c2: TraceColumn, r2: usize|
            !(c2 == c && r2 == row) implies #[trigger] cell_count(post, c2, r2) == cell_count(
            cells,
            c2,
            r2,
        ) by {
            if has_cell(cells, c2, r2) {
                let s2 = cell_slot(cells, c2, r2);
                assert(0 <= s2 < cells.len() && cells[s2].0 == c2 && cells[s2].1 == r2);
                assert(post[s2] == cells[s2]);
                assert(has_cell(post, c2, r2));
                let w2 = cell_slot(post, c2, r2);
                assert(0 <= w2 < post.len() && post[w2].0 == c2 && post[w2].1 == r2);
                assert(w2 == s2) by {
                    if w2 < s2 {
                        assert(!(post[w2].0 == post[s2].0 && post[w2].1 == post[s2].1));
                    } else if w2 > s2 {
                        assert(!(post[s2].0 == post[w2].0 && post[s2].1 == post[w2].1));
                    }
                }
            } else {
                assert(!has_cell(post, c2, r2)) by {
                    if has_cell(post, c2, r2) {
                        let w2 = cell_slot(post, c2, r2);
                        assert(0 <= w2 < post.len() && post[w2].0 == c2 && post[w2].1 == r2);
                        if w2 < cells.len() {
                            assert(has_cell(cells, c2, r2));
                        } else {
                            assert(post[w2] == (c, row, 1usize));
                        }
                    }
                }
            }
        }
    }
}

/// The multiplicity table after recording one write for every row in
/// `[from, upto)`, in ascending order.
pub open spec fn spec_fill_cells(
    cells: Seq<(TraceColumn, usize, usize)>,
    c: TraceColumn,
    from: usize,
    upto: usize,
) -> Seq<(TraceColumn, usize, usize)>
    decreases upto - from,
{
    if from >= upto {
        cells
    } else {
        spec_fill_cells(spec_note_cell(cells, c, from), c, (from + 1) as usize, upto)
    }
}

/// The row extent after observing every row in `[from, upto)`, ascending.
pub open spec fn spec_fill_extent(
    rows: Option<(usize, usize)>,
    from: usize,
    upto: usize,
) -> Option<(usize, usize)>
    decreases upto - from,
{
    if from >= upto {
        rows
    } else {
        spec_fill_extent(spec_extend_rows(rows, from), (from + 1) as usize, upto)
    }
}

/// Peeling the last row off an ascending fill of the multiplicity table.
pub proof fn lemma_fill_cells_snoc(
    cells: Seq<(TraceColumn, usize, usize)>,
    c: TraceColumn,
    from: usize,
    upto: usize,
)
    requires
        from <= upto,
        upto < usize::MAX,
    ensures
        spec_fill_cells(cells, c, from, (upto + 1) as usize) == spec_note_cell(
            spec_fill_cells(cells, c, from, upto),
            c,
            upto,
        ),
    decreases upto - from,
{
    if from == upto {
        assert(spec_fill_cells(cells, c, from, upto) == cells);
        assert(spec_fill_cells(spec_note_cell(cells, c, from), c, (from + 1) as usize, (upto
            + 1) as usize) == spec_note_cell(cells, c, from));
    } else {
        lemma_fill_cells_snoc(spec_note_cell(cells, c, from), c, (from + 1) as usize, upto);
    }
}

/// Peeling the last row off an ascending fill of the row extent.
pub proof fn lemma_fill_extent_snoc(rows: Option<(usize, usize)>, from: usize, upto: usize)
    requires
        from <= upto,
        upto < usize::MAX,
    ensures
        spec_fill_extent(rows, from, (upto + 1) as usize) == spec_extend_rows(
            spec_fill_extent(rows, from, upto),
            upto,
        ),
    decreases upto - from,
{
    if from == upto {
        assert(spec_fill_extent(rows, from, (upto + 1) as usize) == spec_fill_extent(
            spec_extend_rows(rows, from),
            (from + 1) as usize,
            (upto + 1) as usize,
        ));
        assert(spec_fill_extent(spec_extend_rows(rows, from), (from + 1) as usize, (upto
            + 1) as usize) == spec_extend_rows(rows, from));
        assert(spec_fill_extent(rows, from, upto) == rows);
    } else {
        lemma_fill_extent_snoc(spec_extend_rows(rows, from), (from + 1) as usize, upto);
    }
}

/// An ascending fill keeps keys unique, leaves counts outside the filled
/// rows untouched, and records no row at or above `upto`.
pub proof fn lemma_fill_cells_props(
    cells: Seq<(TraceColumn, usize, usize)>,
    c: TraceColumn,
    from: usize,
    upto: usize,
)
    requires
        cells_unique(cells),
    ensures
        cells_unique(spec_fill_cells(cells, c, from, upto)),
        forall|c2: TraceColumn, r2: usize|
            !(c2 == c && from <= r2 < upto) ==> #[trigger] cell_count(
                spec_fill_cells(cells, c, from, upto),
                c2,
                r2,
            ) == cell_count(cells, c2, r2),
        forall|i: int|
            0 <= i < spec_fill_cells(cells, c, from, upto).len() ==> (#[trigger] spec_fill_cells(
                cells,
                c,
                from,
                upto,
            )[i]).1 < upto || (0 <= i < cells.len() && spec_fill_cells(cells, c, from, upto)[i]
                == cells[i]),
    decreases upto - from,
{
    if from >= upto {
    } else {
        lemma_note_cell_props(cells, c, from);
        lemma_fill_cells_props(spec_note_cell(cells, c, from), c, (from + 1) as usize, upto);
    }
}

} // verus!
