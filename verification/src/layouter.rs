//! The region shape collector: the high-level layout contract for circuits
//! that describe themselves in terms of named regions, and the string-keyed
//! instance equality table.

use vstd::prelude::*;

use crate::keys::cell_key;
use crate::keys::cell_key_seq;
use crate::region::RegionShape;

verus! {

/// Whether the equality table holds an entry whose key reads `key`.
pub open spec fn table_has(t: Seq<(String, String)>, key: Seq<char>) -> bool {
    exists|i: int| 0 <= i < t.len() && (#[trigger] t[i]).0@ == key
}

/// The index of the entry whose key reads `key`; meaningful when keys are
/// unique and the entry exists.
pub open spec fn table_slot(t: Seq<(String, String)>, key: Seq<char>) -> int {
    choose|i: int| 0 <= i < t.len() && (#[trigger] t[i]).0@ == key
}

/// The value bound to `key`, as a character sequence.
pub open spec fn table_value(t: Seq<(String, String)>, key: Seq<char>) -> Seq<char> {
    t[table_slot(t, key)].1@
}

/// Collects the shapes of the regions a circuit lays out, and the
/// instance equality table built from explicit instance-binding calls.
#[derive(Debug, PartialEq)]
pub struct AnalyticLayouter {
    /// The archived regions, in creation order.
    pub regions: Vec<RegionShape>,
    /// Best-effort string-keyed bindings from a region-relative cell
    /// identity to the public-input cell it must equal.
    pub eq_table: Vec<(String, String)>,
}

impl AnalyticLayouter {
    /// Archived regions carry dense ordinals and the equality table has at
    /// most one entry per key.
    pub open spec fn wf(self) -> bool {
        &&& forall|r: int|
            0 <= r < self.regions@.len() ==> (#[trigger] self.regions@[r]).wf()
                && self.regions@[r].ordinal == r
        &&& forall|i: int, j: int|
            0 <= i < j < self.eq_table@.len() ==> (#[trigger] self.eq_table@[i]).0@ != (
            #[trigger] self.eq_table@[j]).0@
    }

    /// An empty collector: no regions, no instance bindings.
    pub fn new() -> (r: Self)
        ensures
            r.wf(),
            r.regions@.len() == 0,
            r.eq_table@.len() == 0,
    {
        AnalyticLayouter { regions: Vec::new(), eq_table: Vec::new() }
    }

    /// Open the shape for the next region to lay out, named `name`: its
    /// ordinal is the number of regions archived so far.
    pub fn begin_region(&self, name: String) -> (shape: RegionShape)
        ensures
            shape.wf(),
            shape.name == name,
            shape.ordinal == self.regions@.len(),
            shape.columns@.len() == 0,
            shape.rows is None,
            shape.enabled_selectors@.len() == 0,
            shape.cells@.len() == 0,
    {
        RegionShape::new(name, self.regions.len())
    }

    /// Archive a finished region shape in ordinal order.
    pub fn commit_region(&mut self, shape: RegionShape)
        requires
            old(self).wf(),
            shape.wf(),
            shape.ordinal == old(self).regions@.len(),
        ensures
            final(self).wf(),
            final(self).regions@ == old(self).regions@.push(shape),
            final(self).eq_table == old(self).eq_table,
    {
        self.regions.push(shape);
    }

    /// Record that the region-relative cell `(cell_col, cell_row_offset)`
    /// is bound to the public-input cell `(instance_col, instance_row)`:
    /// one entry keyed by the first cell's string identity, holding the
    /// second cell's string identity, replacing any earlier binding of the
    /// same key.
    pub fn constrain_instance(
        &mut self,
        cell_col: usize,
        cell_row_offset: usize,
        instance_col: usize,
        instance_row: usize,
    )
        requires
            old(self).wf(),
        ensures
            final(self).wf(),
            final(self).regions == old(self).regions,
            table_has(
                final(self).eq_table@,
                cell_key_seq(cell_col as nat, cell_row_offset as nat),
            ),
            table_value(final(self).eq_table@, cell_key_seq(cell_col as nat, cell_row_offset as nat))
                == cell_key_seq(instance_col as nat, instance_row as nat),
            final(self).eq_table@.len() == if table_has(
                old(self).eq_table@,
                cell_key_seq(cell_col as nat, cell_row_offset as nat),
            ) {
                old(self).eq_table@.len()
            } else {
                old(self).eq_table@.len() + 1
            },
            forall|j: int|
                0 <= j < old(self).eq_table@.len() && (#[trigger] old(self).eq_table@[j]).0@
                    != cell_key_seq(cell_col as nat, cell_row_offset as nat) ==> final(self).eq_table@[j]
                    == old(self).eq_table@[j],
    {
        let left = cell_key(cell_col, cell_row_offset);
        let right = cell_key(instance_col, instance_row);
        let ghost key = cell_key_seq(cell_col as nat, cell_row_offset as nat);
        let ghost val = cell_key_seq(instance_col as nat, instance_row as nat);
        let ghost table0 = old(self).eq_table@;
        let n = self.eq_table.len();
        let mut i: usize = 0;
        while i < n
            invariant
                0 <= i <= n,
                n == self.eq_table@.len(),
                old(self).wf(),
                self.eq_table@ == table0,
                table0 == old(self).eq_table@,
                self.regions == old(self).regions,
                left@ == key,
                right@ == val,
                key == cell_key_seq(cell_col as nat, cell_row_offset as nat),
                val == cell_key_seq(instance_col as nat, instance_row as nat),
                forall|j: int| 0 <= j < i ==> (#[trigger] table0[j]).0@ != key,
            decreases n - i,
        {
            if self.eq_table[i].0 == left {
                proof {
                    assert(table0[i as int].0@ == key);
                }
                let _ = self.eq_table.remove(i);
                self.eq_table.insert(i, (left, right));
                proof {
                    assert(self.eq_table@ =~= table0.update(i as int, (left, right)));
                    assert(self.eq_table@[i as int].0@ == key);
                    assert(table_has(self.eq_table@, key));
                    assert forall|x: int, y: int|
                        0 <= x < y < self.eq_table@.len() implies (
                    #[trigger] self.eq_table@[x]).0@ != (#[trigger] self.eq_table@[y]).0@ by {
                        assert(self.eq_table@[x].0@ == table0[x].0@);
                        assert(self.eq_table@[y].0@ == table0[y].0@);
                    }
                    let k = table_slot(self.eq_table@, key);
                    assert(0 <= k < self.eq_table@.len() && self.eq_table@[k].0@ == key);
                    assert(k == i as int) by {
                        if k < i as int {
                            assert(self.eq_table@[k].0@ != self.eq_table@[i as int].0@);
                        } else if k > i as int {
                            assert(self.eq_table@[i as int].0@ != self.eq_table@[k].0@);
                        }
                    }
                    assert(self.eq_table@[i as int].1@ == val);
                    assert(table_value(self.eq_table@, key) == val);
                    assert(key == cell_key_seq(cell_col as nat, cell_row_offset as nat));
                    assert(val == cell_key_seq(instance_col as nat, instance_row as nat));
                }
                return ;
            }
            i += 1;
        }
        proof {
            assert(!table_has(table0, key)) by {
                if table_has(table0, key) {
                    let w = table_slot(table0, key);
                    assert(0 <= w < table0.len() && table0[w].0@ == key);
                }
            }
        }
        self.eq_table.push((left, right));
        proof {
            assert(self.eq_table@[table0.len() as int].0@ == key);
            assert(table_has(self.eq_table@, key));
            assert forall|x: int, y: int|
                0 <= x < y < self.eq_table@.len() implies (#[trigger] self.eq_table@[x]).0@ != (
            #[trigger] self.eq_table@[y]).0@ by {
                if y < table0.len() {
                    assert(table0[x].0@ != table0[y].0@);
                } else {
                    assert(self.eq_table@[y].0@ == key);
                    assert(self.eq_table@[x].0@ == table0[x].0@);
                    assert(table0[x].0@ != key);
                }
            }
            let k = table_slot(self.eq_table@, key);
            assert(0 <= k < self.eq_table@.len() && self.eq_table@[k].0@ == key);
            assert(k == table0.len() as int) by {
                if k < table0.len() {
                    assert(table0[k].0@ != key);
                }
            }
        }
    }
}

} // verus!
