//! The in-process table: a sparse store of typed cells addressed by
//! `(row, column)` coordinates, with formula evaluation over its contents.
//!
//! The table is modelled as a finite map from coordinates to [`CellValue`]s:
//! its view. A coordinate never set is absent from the map; setting a
//! coordinate inserts into the map, replacing whatever was there. Reading a
//! number yields the stored bit pattern when the coordinate holds a numeric
//! cell and `0` (the bit pattern of positive zero) otherwise. Evaluation of
//! the summation formula yields the numeric cell values in an unspecified
//! order, pinned down as a multiset.

use vstd::prelude::*;
use vstd::multiset::Multiset;
use vstd::string::StringSliceAdditionalSpecFns;
use crate::cell::{Cell, CellKind, CellValue};
use crate::formula::{is_sum_formula, recognizes_sum};

verus! {

broadcast use vstd::multiset::group_multiset_axioms;

/// One stored cell together with its coordinate.
struct Entry {
    row: i32,
    col: i32,
    cell: Cell,
}

impl Entry {
    spec fn key(self) -> (int, int) {
        (self.row as int, self.col as int)
    }
}

/// The coordinate pair as it appears in the table's view.
pub open spec fn table_key(row: i32, col: i32) -> (int, int) {
    (row as int, col as int)
}

/// What reading a number at a coordinate of a table state yields: the stored
/// bit pattern for a numeric cell, and `0` for an absent or text cell.
pub open spec fn cell_number(m: Map<(int, int), CellValue>, row: i32, col: i32) -> u64 {
    if m.dom().contains(table_key(row, col)) {
        match m[table_key(row, col)] {
            CellValue::Number(bits) => bits,
            CellValue::Text(_) => 0,
        }
    } else {
        0
    }
}

/// What one cell value contributes to the table's multiset of numeric
/// values: its bit pattern if numeric, nothing if textual.
pub open spec fn num_contrib(v: CellValue) -> Multiset<u64> {
    match v {
        CellValue::Number(bits) => Multiset::empty().insert(bits),
        CellValue::Text(_) => Multiset::empty(),
    }
}

/// What the cell at a coordinate of a table state contributes to the
/// multiset of numeric values; an absent coordinate contributes nothing.
pub open spec fn num_contrib_at(m: Map<(int, int), CellValue>, k: (int, int)) -> Multiset<u64> {
    if m.dom().contains(k) {
        num_contrib(m[k])
    } else {
        Multiset::empty()
    }
}

spec fn entries_map(s: Seq<Entry>) -> Map<(int, int), CellValue>
    decreases s.len(),
{
    if s.len() == 0 {
        Map::empty()
    } else {
        entries_map(s.drop_last()).insert(s.last().key(), s.last().cell@)
    }
}

spec fn nums_of(s: Seq<Entry>) -> Multiset<u64>
    decreases s.len(),
{
    if s.len() == 0 {
        Multiset::empty()
    } else {
        nums_of(s.drop_last()).add(num_contrib(s.last().cell@))
    }
}

spec fn unique_keys(s: Seq<Entry>) -> bool {
    forall|i: int, j: int| 0 <= i < j < s.len() ==> s[i].key() != s[j].key()
}

/// A sparse table of typed cells, keyed by `(row, column)`.
pub struct Table {
    cells: Vec<Entry>,
}

impl View for Table {
    type V = Map<(int, int), CellValue>;

    closed spec fn view(&self) -> Map<(int, int), CellValue> {
        entries_map(self.cells@)
    }
}

/// A coordinate not present in the given sequence of entries is absent from
/// the map the sequence denotes.
proof fn lemma_entries_map_absent(s: Seq<Entry>, k: (int, int))
    requires
        forall|i: int| 0 <= i < s.len() ==> s[i].key() != k,
    ensures
        !entries_map(s).dom().contains(k),
    decreases s.len(),
{
    if s.len() > 0 {
        lemma_entries_map_absent(s.drop_last(), k);
    }
}

/// Each entry of a sequence with pairwise distinct keys is present in the
/// map the sequence denotes, under its key and with its cell's value.
proof fn lemma_entries_map_at(s: Seq<Entry>, i: int)
    requires
        unique_keys(s),
        0 <= i < s.len(),
    ensures
        entries_map(s).dom().contains(s[i].key()),
        entries_map(s)[s[i].key()] == s[i].cell@,
    decreases s.len(),
{
    if i < s.len() - 1 {
        lemma_entries_map_at(s.drop_last(), i);
    }
}

/// No entry contributes more copies of a value than the whole sequence
/// holds: the contribution of each entry is contained in the total.
proof fn lemma_nums_of_bounds(s: Seq<Entry>, i: int)
    requires
        0 <= i < s.len(),
    ensures
        forall|v: u64| num_contrib(s[i].cell@).count(v) <= nums_of(s).count(v),
    decreases s.len(),
{
    assert(nums_of(s) == nums_of(s.drop_last()).add(num_contrib(s.last().cell@)));
    if i < s.len() - 1 {
        lemma_nums_of_bounds(s.drop_last(), i);
        assert(s.drop_last()[i] == s[i]);
        assert forall|v: u64| num_contrib(s[i].cell@).count(v) <= nums_of(s).count(v) by {
            assert(num_contrib(s[i].cell@).count(v) <= nums_of(s.drop_last()).count(v));
        }
    } else {
        assert(s.last() == s[i]);
        assert forall|v: u64| num_contrib(s[i].cell@).count(v) <= nums_of(s).count(v) by {
            assert(nums_of(s).count(v) == nums_of(s.drop_last()).count(v) + num_contrib(
                s[i].cell@,
            ).count(v));
        }
    }
}

/// Replacing the entry at one index by an entry with the same key turns the
/// denoted map into an insert at that key, and exchanges the old entry's
/// numeric contribution for the new one's (stated additively to sidestep
/// truncating multiset subtraction).
proof fn lemma_entries_update_add(s: Seq<Entry>, i: int, e: Entry)
    requires
        unique_keys(s),
        0 <= i < s.len(),
        e.key() == s[i].key(),
    ensures
        unique_keys(s.update(i, e)),
        entries_map(s.update(i, e)) == entries_map(s).insert(e.key(), e.cell@),
        nums_of(s.update(i, e)).add(num_contrib(s[i].cell@)) == nums_of(s).add(
            num_contrib(e.cell@),
        ),
    decreases s.len(),
{
    let t = s.update(i, e);
    assert(t.len() == s.len());
    assert forall|p: int, q: int| 0 <= p < q < t.len() implies t[p].key() != t[q].key() by {
        assert(t[p].key() == s[p].key() && t[q].key() == s[q].key());
    }
    assert(nums_of(s) == nums_of(s.drop_last()).add(num_contrib(s.last().cell@)));
    assert(nums_of(t) == nums_of(t.drop_last()).add(num_contrib(t.last().cell@)));
    if i == s.len() - 1 {
        assert(t.drop_last() =~= s.drop_last());
        assert(t.last() == e);
        assert(s.last() == s[i]);
        assert(entries_map(t) == entries_map(s.drop_last()).insert(e.key(), e.cell@));
        assert(entries_map(s).insert(e.key(), e.cell@) =~= entries_map(s.drop_last()).insert(
            e.key(),
            e.cell@,
        ));
        assert forall|v: u64|
            nums_of(t).add(num_contrib(s[i].cell@)).count(v) == nums_of(s).add(
                num_contrib(e.cell@),
            ).count(v) by {
            assert(nums_of(t).count(v) == nums_of(s.drop_last()).count(v) + num_contrib(
                e.cell@,
            ).count(v));
        }
        assert(nums_of(t).add(num_contrib(s[i].cell@)) =~= nums_of(s).add(num_contrib(e.cell@)));
    } else {
        assert(t.drop_last() =~= s.drop_last().update(i, e));
        assert(t.last() == s.last());
        lemma_entries_update_add(s.drop_last(), i, e);
        assert(s.drop_last()[i] == s[i]);
        // Both sides insert at e.key() and at the distinct last key; the
        // inserts commute.
        assert(s.last().key() != e.key());
        assert(entries_map(t) =~= entries_map(s).insert(e.key(), e.cell@));
        assert forall|v: u64|
            nums_of(t).add(num_contrib(s[i].cell@)).count(v) == nums_of(s).add(
                num_contrib(e.cell@),
            ).count(v) by {
            assert(nums_of(s.drop_last().update(i, e)).add(num_contrib(s[i].cell@)).count(v)
                == nums_of(s.drop_last()).add(num_contrib(e.cell@)).count(v));
            assert(nums_of(s.drop_last().update(i, e)).count(v) + num_contrib(s[i].cell@).count(v)
                == nums_of(s.drop_last()).count(v) + num_contrib(e.cell@).count(v));
        }
        assert(nums_of(t).add(num_contrib(s[i].cell@)) =~= nums_of(s).add(num_contrib(e.cell@)));
    }
}

/// The update lemma in the subtractive form the public contracts use; sound
/// because the displaced contribution is contained in the old total.
proof fn lemma_entries_update(s: Seq<Entry>, i: int, e: Entry)
    requires
        unique_keys(s),
        0 <= i < s.len(),
        e.key() == s[i].key(),
    ensures
        unique_keys(s.update(i, e)),
        entries_map(s.update(i, e)) == entries_map(s).insert(e.key(), e.cell@),
        nums_of(s.update(i, e)) == nums_of(s).sub(num_contrib(s[i].cell@)).add(
            num_contrib(e.cell@),
        ),
{
    lemma_entries_update_add(s, i, e);
    lemma_nums_of_bounds(s, i);
    assert forall|v: u64|
        nums_of(s.update(i, e)).count(v) == nums_of(s).sub(num_contrib(s[i].cell@)).add(
            num_contrib(e.cell@),
        ).count(v) by {
        assert(nums_of(s.update(i, e)).add(num_contrib(s[i].cell@)).count(v) == nums_of(s).add(
            num_contrib(e.cell@),
        ).count(v));
        assert(nums_of(s.update(i, e)).count(v) + num_contrib(s[i].cell@).count(v) == nums_of(
            s,
        ).count(v) + num_contrib(e.cell@).count(v));
        assert(num_contrib(s[i].cell@).count(v) <= nums_of(s).count(v));
    }
    assert(nums_of(s.update(i, e)) =~= nums_of(s).sub(num_contrib(s[i].cell@)).add(
        num_contrib(e.cell@),
    ));
}

impl Table {
    /// The table's private store holds pairwise distinct coordinates and
    /// internally consistent cells.
    pub closed spec fn wf(self) -> bool {
        &&& unique_keys(self.cells@)
        &&& forall|i: int| 0 <= i < self.cells@.len() ==> (#[trigger] self.cells@[i]).cell.wf()
    }

    /// The multiset of bit patterns of the table's numeric cells.
    pub closed spec fn nums(self) -> Multiset<u64> {
        nums_of(self.cells@)
    }

    /// Creates an empty table: no coordinate holds a cell.
    pub fn new() -> (t: Table)
        ensures
            t.wf(),
            t@ == Map::<(int, int), CellValue>::empty(),
            t.nums() == Multiset::<u64>::empty(),
    {
        Table { cells: Vec::new() }
    }

    /// Stores the given cell at the coordinate, replacing any prior cell.
    fn set_cell(&mut self, row: i32, col: i32, cell: Cell)
        requires
            old(self).wf(),
            cell.wf(),
        ensures
            final(self).wf(),
            final(self)@ == old(self)@.insert(table_key(row, col), cell@),
            final(self).nums() == old(self).nums().sub(
                num_contrib_at(old(self)@, table_key(row, col)),
            ).add(num_contrib(cell@)),
    {
        let ghost k = table_key(row, col);
        let n = self.cells.len();
        let mut i: usize = 0;
        while i < n
            invariant
                i <= n,
                n == self.cells@.len(),
                *self == *old(self),
                forall|j: int| 0 <= j < i ==> (#[trigger] self.cells@[j]).key() != k,
                old(self).wf(),
                cell.wf(),
                k == table_key(row, col),
            decreases n - i,
        {
            if self.cells[i].row == row && self.cells[i].col == col {
                let e = Entry { row, col, cell };
                proof {
                    lemma_entries_map_at(self.cells@, i as int);
                    lemma_entries_update(self.cells@, i as int, e);
                }
                self.cells[i] = e;
                return ;
            }
            i += 1;
        }
        let e = Entry { row, col, cell };
        proof {
            lemma_entries_map_absent(self.cells@, k);
            assert(self.cells@.push(e).drop_last() =~= self.cells@);
            assert(old(self).nums().sub(Multiset::empty()) =~= old(self).nums());
        }
        self.cells.push(e);
    }

    /// Stores a numeric cell (given as an IEEE-754 bit pattern) at the
    /// coordinate, replacing any prior cell there.
    pub fn set_number(&mut self, row: i32, col: i32, bits: u64)
        requires
            old(self).wf(),
        ensures
            final(self).wf(),
            final(self)@ == old(self)@.insert(table_key(row, col), CellValue::Number(bits)),
            final(self).nums() == old(self).nums().sub(
                num_contrib_at(old(self)@, table_key(row, col)),
            ).add(num_contrib(CellValue::Number(bits))),
    {
        self.set_cell(row, col, Cell::number(bits));
    }

    /// Stores a text cell at the coordinate, replacing any prior cell there.
    /// Any text is accepted and kept as given.
    pub fn set_text(&mut self, row: i32, col: i32, val: String)
        requires
            old(self).wf(),
        ensures
            final(self).wf(),
            final(self)@ == old(self)@.insert(table_key(row, col), CellValue::Text(val@)),
            final(self).nums() == old(self).nums().sub(
                num_contrib_at(old(self)@, table_key(row, col)),
            ),
    {
        let ghost v = CellValue::Text(val@);
        self.set_cell(row, col, Cell::text(val));
        proof {
            assert(old(self).nums().sub(num_contrib_at(old(self)@, table_key(row, col))).add(
                num_contrib(v),
            ) =~= old(self).nums().sub(num_contrib_at(old(self)@, table_key(row, col))));
        }
    }

    /// Reads the numeric value at the coordinate: the stored bit pattern if
    /// the coordinate holds a numeric cell, and `0` (positive zero) if it is
    /// absent or holds text. A type mismatch is not an error.
    pub fn get_number(&self, row: i32, col: i32) -> (bits: u64)
        requires
            self.wf(),
        ensures
            bits == cell_number(self@, row, col),
    {
        let ghost k = table_key(row, col);
        let n = self.cells.len();
        let mut i: usize = 0;
        while i < n
            invariant
                i <= n,
                n == self.cells@.len(),
                self.wf(),
                forall|j: int| 0 <= j < i ==> (#[trigger] self.cells@[j]).key() != k,
                k == table_key(row, col),
            decreases n - i,
        {
            if self.cells[i].row == row && self.cells[i].col == col {
                proof {
                    lemma_entries_map_at(self.cells@, i as int);
                }
                return match self.cells[i].cell.kind {
                    CellKind::Number => self.cells[i].cell.num_val,
                    CellKind::Text => 0,
                };
            }
            i += 1;
        }
        proof {
            lemma_entries_map_absent(self.cells@, k);
        }
        0
    }

    /// Evaluates a formula against the table's contents. A recognized
    /// summation formula yields the bit patterns of all numeric cells, in
    /// an unspecified order; any other formula yields nothing. Folding the
    /// result with floating-point addition is the caller's concern.
    pub fn eval(&self, formula: &str) -> (out: Vec<u64>)
        requires
            self.wf(),
        ensures
            is_sum_formula(formula.spec_bytes()) ==> out@.to_multiset() == self.nums(),
            !is_sum_formula(formula.spec_bytes()) ==> out@ == Seq::<u64>::empty(),
    {
        let mut out: Vec<u64> = Vec::new();
        proof {
            assert(out@ =~= Seq::<u64>::empty());
            out@.to_multiset_ensures();
            assert(out@.to_multiset() =~= Multiset::<u64>::empty());
        }
        if !recognizes_sum(formula) {
            return out;
        }
        let n = self.cells.len();
        let mut i: usize = 0;
        while i < n
            invariant
                i <= n,
                n == self.cells@.len(),
                self.wf(),
                out@.to_multiset() == nums_of(self.cells@.take(i as int)),
            decreases n - i,
        {
            let ghost prefix = self.cells@.take(i as int);
            let ghost next = self.cells@.take(i as int + 1);
            proof {
                assert(next.drop_last() =~= prefix);
                assert(next.last() == self.cells@[i as int]);
            }
            match self.cells[i].cell.kind {
                CellKind::Number => {
                    proof {
                        out@.to_multiset_ensures();
                    }
                    out.push(self.cells[i].cell.num_val);
                    proof {
                        assert(out@.to_multiset() =~= nums_of(next));
                    }
                },
                CellKind::Text => {
                    proof {
                        assert(nums_of(next) =~= nums_of(prefix));
                    }
                },
            }
            i += 1;
        }
        proof {
            assert(self.cells@.take(n as int) =~= self.cells@);
        }
        out
    }
}

/// A coordinate that was never set holds no cell, so reading a number there
/// yields zero.
pub proof fn lemma_get_number_absent(m: Map<(int, int), CellValue>, row: i32, col: i32)
    requires
        !m.dom().contains(table_key(row, col)),
    ensures
        cell_number(m, row, col) == 0,
{
}

/// A coordinate last set to text has no numeric value: reading a number
/// there yields zero, whatever the text and whatever was stored before.
pub proof fn lemma_get_number_after_text(
    m: Map<(int, int), CellValue>,
    row: i32,
    col: i32,
    text: Seq<char>,
)
    ensures
        cell_number(m.insert(table_key(row, col), CellValue::Text(text)), row, col) == 0,
{
}

/// A coordinate last set to a number reads back exactly the bit pattern that
/// was stored — no value, finite or not, is altered by the round trip.
pub proof fn lemma_get_number_roundtrip(
    m: Map<(int, int), CellValue>,
    row: i32,
    col: i32,
    bits: u64,
)
    ensures
        cell_number(m.insert(table_key(row, col), CellValue::Number(bits)), row, col) == bits,
{
}

/// Overwrite law: setting the same coordinate twice, with any two cell
/// values in any variant combination, leaves the table in the state reached
/// by the second write alone; the first value is unobservable.
pub proof fn lemma_overwrite(
    m: Map<(int, int), CellValue>,
    row: i32,
    col: i32,
    v1: CellValue,
    v2: CellValue,
)
    ensures
        m.insert(table_key(row, col), v1).insert(table_key(row, col), v2) == m.insert(
            table_key(row, col),
            v2,
        ),
{
    assert(m.insert(table_key(row, col), v1).insert(table_key(row, col), v2) =~= m.insert(
        table_key(row, col),
        v2,
    ));
}

} // verus!
