//! The handle-based table boundary.
//!
//! A [`Runtime`] owns table resources on behalf of its callers, who address
//! them only through opaque [`TableHandle`]s obtained at creation and given
//! back exactly once at release. [`SafeTable`] is the ownership-safe wrapper
//! over one such handle: it is the only public way to reach a runtime-owned
//! table, it never reveals its handle, it validates text before handing it
//! across the boundary, and releasing it consumes the wrapper, so that no
//! operation can be issued after release and no handle can be released
//! twice — the misuse is unrepresentable, not merely checked.
//!
//! The runtime keeps an exact account of its resources: how many tables were
//! ever created, how many were destroyed, and which are live. The contracts
//! below pin that account down, so a leak or a double free is refuted at
//! verification time.

use vstd::prelude::*;
use vstd::multiset::Multiset;
use vstd::string::StringSliceAdditionalSpecFns;
use vstd::utf8::encode_utf8;
use crate::cell::CellValue;
use crate::formula::is_sum_formula;
use crate::table::{Table, table_key, cell_number, num_contrib, num_contrib_at};

verus! {

/// How a bridged operation fails. Soft conditions (reading an absent or
/// mismatched cell, an unrecognized formula) are absorbed into default
/// results and never appear here.
#[derive(Debug, PartialEq, Eq)]
pub enum EngineError {
    /// The text cannot be marshaled across the boundary: its encoding
    /// contains an embedded terminator byte.
    InvalidTextEncoding,
    /// The runtime cannot furnish a further table resource.
    ResourceAcquisitionFailure,
}

/// Whether the UTF-8 encoding of the text contains an embedded terminator
/// byte, which no boundary crossing can represent.
pub open spec fn text_has_nul(s: Seq<char>) -> bool {
    exists|i: int| 0 <= i < encode_utf8(s).len() && encode_utf8(s)[i] == 0
}

/// Decides whether the text's byte encoding contains a terminator byte.
pub fn contains_nul_byte(s: &str) -> (b: bool)
    ensures
        b == text_has_nul(s@),
{
    let bytes = s.as_bytes();
    let n = bytes.len();
    let mut i: usize = 0;
    while i < n
        invariant
            i <= n,
            n == bytes@.len(),
            bytes@ == encode_utf8(s@),
            forall|j: int| 0 <= j < i ==> bytes@[j] != 0,
        decreases n - i,
    {
        if bytes[i] == 0 {
            return true;
        }
        i += 1;
    }
    false
}

/// An opaque reference to a table resident in a [`Runtime`]. The identifier
/// is never exposed; it only correlates a wrapper with its resource.
pub struct TableHandle {
    id: u64,
}

impl TableHandle {
    /// The resource identifier, visible to specifications only.
    pub closed spec fn spec_id(self) -> u64 {
        self.id
    }
}

struct RtSlot {
    handle: TableHandle,
    table: Table,
}

spec fn ids_unique(s: Seq<RtSlot>) -> bool {
    forall|i: int, j: int|
        0 <= i < j < s.len() ==> s[i].handle.id != s[j].handle.id
}

/// The boundary runtime: the owner of every bridged table resource. Callers
/// reach a resource only through the handle they were given, and only while
/// it is live.
pub struct Runtime {
    slots: Vec<RtSlot>,
    created: u64,
    destroyed: u64,
}

impl Runtime {
    /// The runtime's resource account is coherent: live identifiers are
    /// pairwise distinct and below the creation counter, live tables are
    /// well-formed, and the live population is exactly the surplus of
    /// creations over destructions.
    pub closed spec fn wf(self) -> bool {
        &&& ids_unique(self.slots@)
        &&& forall|i: int|
            0 <= i < self.slots@.len() ==> (#[trigger] self.slots@[i]).handle.id < self.created
        &&& forall|i: int| 0 <= i < self.slots@.len() ==> (#[trigger] self.slots@[i]).table.wf()
        &&& self.destroyed <= self.created
        &&& self.slots@.len() == self.created - self.destroyed
    }

    /// How many table resources were ever created.
    pub closed spec fn spec_created(self) -> u64 {
        self.created
    }

    /// How many table resources were released.
    pub closed spec fn spec_destroyed(self) -> u64 {
        self.destroyed
    }

    /// How many table resources are live now.
    pub closed spec fn live_count(self) -> nat {
        self.slots@.len()
    }

    /// Whether a resource with this identifier is live.
    pub closed spec fn is_live(self, id: u64) -> bool {
        exists|i: int| 0 <= i < self.slots@.len() && self.slots@[i].handle.id == id
    }

    spec fn slot_of(self, id: u64) -> int {
        choose|i: int| 0 <= i < self.slots@.len() && self.slots@[i].handle.id == id
    }

    /// The table resident under a live identifier.
    pub closed spec fn table_at(self, id: u64) -> Table {
        self.slots@[self.slot_of(id)].table
    }
}

/// Under pairwise distinct identifiers, the resident table of the identifier
/// found at an index is the table at that index.
proof fn lemma_table_at_index(rt: Runtime, i: int)
    requires
        ids_unique(rt.slots@),
        0 <= i < rt.slots@.len(),
    ensures
        rt.is_live(rt.slots@[i].handle.id),
        rt.slot_of(rt.slots@[i].handle.id) == i,
        rt.table_at(rt.slots@[i].handle.id) == rt.slots@[i].table,
{
    let id = rt.slots@[i].handle.id;
    assert(rt.is_live(id));
    let j = rt.slot_of(id);
    assert(0 <= j < rt.slots@.len() && rt.slots@[j].handle.id == id);
    if i != j {
        assert(rt.slots@[i].handle.id != rt.slots@[j].handle.id);
    }
}

/// No identifier at or above the creation counter is live.
proof fn lemma_fresh_not_live(rt: Runtime, id: u64)
    requires
        rt.wf(),
        id >= rt.spec_created(),
    ensures
        !rt.is_live(id),
{
}

impl Runtime {
    /// A runtime holding no resources and owing none.
    pub fn new() -> (rt: Runtime)
        ensures
            rt.wf(),
            rt.spec_created() == 0,
            rt.spec_destroyed() == 0,
            rt.live_count() == 0,
            forall|id: u64| !rt.is_live(id),
    {
        Runtime { slots: Vec::new(), created: 0, destroyed: 0 }
    }

    /// The number of table resources ever created.
    pub fn created_count(&self) -> (n: u64)
        ensures
            n == self.spec_created(),
    {
        self.created
    }

    /// The number of table resources released.
    pub fn destroyed_count(&self) -> (n: u64)
        ensures
            n == self.spec_destroyed(),
    {
        self.destroyed
    }

    /// The number of table resources live now.
    pub fn live_table_count(&self) -> (n: usize)
        ensures
            n == self.live_count(),
    {
        self.slots.len()
    }

    /// Acquires a fresh table resource. Fails, leaving the runtime as it
    /// was, exactly when the identifier space is exhausted.
    pub(crate) fn create_table(&mut self) -> (r: Result<TableHandle, EngineError>)
        requires
            old(self).wf(),
        ensures
            final(self).wf(),
            old(self).spec_created() < u64::MAX ==> r is Ok,
            match r {
                Ok(h) => {
                    &&& h.spec_id() == old(self).spec_created()
                    &&& !old(self).is_live(h.spec_id())
                    &&& final(self).is_live(h.spec_id())
                    &&& final(self).table_at(h.spec_id()).wf()
                    &&& final(self).table_at(h.spec_id())@ == Map::<(int, int), CellValue>::empty()
                    &&& final(self).table_at(h.spec_id()).nums() == Multiset::<u64>::empty()
                    &&& final(self).spec_created() == old(self).spec_created() + 1
                    &&& final(self).spec_destroyed() == old(self).spec_destroyed()
                    &&& forall|x: u64|
                        x != h.spec_id() ==> final(self).is_live(x) == old(self).is_live(x)
                    &&& forall|x: u64|
                        x != h.spec_id() && old(self).is_live(x) ==> final(self).table_at(x)
                            == old(self).table_at(x)
                },
                Err(e) => {
                    &&& e == EngineError::ResourceAcquisitionFailure
                    &&& old(self).spec_created() == u64::MAX
                    &&& *final(self) == *old(self)
                },
            },
    {
        if self.created == u64::MAX {
            return Err(EngineError::ResourceAcquisitionFailure);
        }
        let h = TableHandle { id: self.created };
        self.created = self.created + 1;
        self.slots.push(RtSlot { handle: TableHandle { id: h.id }, table: Table::new() });
        proof {
            let s = self.slots@;
            let n = s.len() - 1;
            assert(s[n].handle.id == h.id);
            assert forall|i: int, j: int| 0 <= i < j < s.len() implies s[i].handle.id
                != s[j].handle.id by {
                if j < n {
                    assert(s[i] == old(self).slots@[i] && s[j] == old(self).slots@[j]);
                } else {
                    assert(s[i] == old(self).slots@[i]);
                    assert(old(self).slots@[i].handle.id < old(self).created);
                }
            }
            lemma_fresh_not_live(*old(self), h.id);
            lemma_table_at_index(*self, n);
            assert forall|x: u64| x != h.spec_id() implies final(self).is_live(x) == old(self).is_live(x) by {
                if old(self).is_live(x) {
                    let i = choose|i: int|
                        0 <= i < old(self).slots@.len() && old(self).slots@[i].handle.id == x;
                    assert(s[i].handle.id == x);
                }
                if final(self).is_live(x) {
                    let i = choose|i: int| 0 <= i < s.len() && s[i].handle.id == x;
                    assert(i != n);
                    assert(old(self).slots@[i].handle.id == x);
                }
            }
            assert forall|x: u64| x != h.spec_id() && old(self).is_live(x) implies final(self).table_at(x) == old(self).table_at(x) by {
                let i = choose|i: int|
                    0 <= i < old(self).slots@.len() && old(self).slots@[i].handle.id == x;
                lemma_table_at_index(*old(self), i);
                lemma_table_at_index(*self, i);
            }
        }
        Ok(h)
    }

    /// Releases a live table resource. The handle's identifier is live no
    /// more; every other resource is untouched.
    pub(crate) fn destroy_table(&mut self, h: TableHandle)
        requires
            old(self).wf(),
            old(self).is_live(h.spec_id()),
        ensures
            final(self).wf(),
            !final(self).is_live(h.spec_id()),
            final(self).spec_created() == old(self).spec_created(),
            final(self).spec_destroyed() == old(self).spec_destroyed() + 1,
            forall|x: u64| x != h.spec_id() ==> final(self).is_live(x) == old(self).is_live(x),
            forall|x: u64|
                x != h.spec_id() && old(self).is_live(x) ==> final(self).table_at(x) == old(self).table_at(x),
    {
        let n = self.slots.len();
        let mut i: usize = 0;
        while i < n
            invariant
                i <= n,
                n == self.slots@.len(),
                *self == *old(self),
                old(self).wf(),
                old(self).is_live(h.spec_id()),
                forall|j: int| 0 <= j < i ==> (#[trigger] self.slots@[j]).handle.id != h.spec_id(),
            decreases n - i,
        {
            if self.slots[i].handle.id == h.id {
                let ghost s = self.slots@;
                let ghost ii = i as int;
                self.slots.remove(i);
                self.destroyed = self.destroyed + 1;
                proof {
                    let t = self.slots@;
                    assert(t =~= s.subrange(0, ii) + s.subrange(ii + 1, s.len() as int));
                    assert forall|j: int| 0 <= j < t.len() implies t[j] == (if j < ii {
                        s[j]
                    } else {
                        s[j + 1]
                    }) by {}
                    assert forall|p: int, q: int| 0 <= p < q < t.len() implies t[p].handle.id
                        != t[q].handle.id by {}
                    assert forall|x: u64| x != h.spec_id() implies final(self).is_live(x) == old(self).is_live(x) by {
                        if old(self).is_live(x) {
                            let j = choose|j: int| 0 <= j < s.len() && s[j].handle.id == x;
                            if j < ii {
                                assert(t[j].handle.id == x);
                            } else {
                                assert(j != ii);
                                assert(t[j - 1].handle.id == x);
                            }
                        }
                        if final(self).is_live(x) {
                            let j = choose|j: int| 0 <= j < t.len() && t[j].handle.id == x;
                            if j < ii {
                                assert(s[j].handle.id == x);
                            } else {
                                assert(s[j + 1].handle.id == x);
                            }
                        }
                    }
                    assert(!final(self).is_live(h.spec_id())) by {
                        if final(self).is_live(h.spec_id()) {
                            let j = choose|j: int|
                                0 <= j < t.len() && t[j].handle.id == h.spec_id();
                            if j < ii {
                                assert(s[j].handle.id == s[ii].handle.id);
                            } else {
                                assert(s[j + 1].handle.id == s[ii].handle.id);
                            }
                        }
                    }
                    assert forall|x: u64| x != h.spec_id() && old(self).is_live(x) implies final(self).table_at(x) == old(self).table_at(x) by {
                        let j = choose|j: int| 0 <= j < s.len() && s[j].handle.id == x;
                        lemma_table_at_index(*old(self), j);
                        if j < ii {
                            lemma_table_at_index(*self, j);
                        } else {
                            assert(j != ii);
                            assert(t[j - 1] == s[j]);
                            lemma_table_at_index(*self, j - 1);
                        }
                    }
                }
                return ;
            }
            i += 1;
        }
        proof {
            assert(!old(self).is_live(h.spec_id()));
        }
    }

    /// The index of the slot holding a live identifier.
    fn find_slot(&self, h: &TableHandle) -> (i: usize)
        requires
            self.wf(),
            self.is_live(h.spec_id()),
        ensures
            i < self.slots@.len(),
            self.slots@[i as int].handle.id == h.spec_id(),
    {
        let n = self.slots.len();
        let mut i: usize = 0;
        while i < n
            invariant
                i <= n,
                n == self.slots@.len(),
                self.wf(),
                self.is_live(h.spec_id()),
                forall|j: int| 0 <= j < i ==> (#[trigger] self.slots@[j]).handle.id != h.spec_id(),
            decreases n - i,
        {
            if self.slots[i].handle.id == h.id {
                return i;
            }
            i += 1;
        }
        proof {
            assert(!self.is_live(h.spec_id()));
        }
        0
    }

    /// Writes a numeric cell into the table at a live identifier.
    pub(crate) fn set_cell_number(&mut self, h: TableHandle, row: i32, col: i32, bits: u64)
        requires
            old(self).wf(),
            old(self).is_live(h.spec_id()),
        ensures
            final(self).wf(),
            final(self).table_at(h.spec_id()).wf(),
            final(self).table_at(h.spec_id())@ == old(self).table_at(h.spec_id())@.insert(
                table_key(row, col),
                CellValue::Number(bits),
            ),
            final(self).table_at(h.spec_id()).nums() == old(self).table_at(h.spec_id()).nums().sub(
                num_contrib_at(old(self).table_at(h.spec_id())@, table_key(row, col)),
            ).add(num_contrib(CellValue::Number(bits))),
            final(self).spec_created() == old(self).spec_created(),
            final(self).spec_destroyed() == old(self).spec_destroyed(),
            forall|x: u64| final(self).is_live(x) == old(self).is_live(x),
            forall|x: u64|
                x != h.spec_id() && old(self).is_live(x) ==> final(self).table_at(x) == old(
                    self,
                ).table_at(x),
    {
        let i = self.find_slot(&h);
        proof {
            lemma_table_at_index(*old(self), i as int);
        }
        self.slots[i].table.set_number(row, col, bits);
        proof {
            lemma_update_table(*old(self), *self, i as int);
        }
    }

    /// Writes a text cell into the table at a live identifier. The text must
    /// already have been validated: no terminator byte may cross.
    pub(crate) fn set_cell_text(&mut self, h: TableHandle, row: i32, col: i32, val: &str)
        requires
            old(self).wf(),
            old(self).is_live(h.spec_id()),
            !text_has_nul(val@),
        ensures
            final(self).wf(),
            final(self).table_at(h.spec_id()).wf(),
            final(self).table_at(h.spec_id())@ == old(self).table_at(h.spec_id())@.insert(
                table_key(row, col),
                CellValue::Text(val@),
            ),
            final(self).table_at(h.spec_id()).nums() == old(self).table_at(h.spec_id()).nums().sub(
                num_contrib_at(old(self).table_at(h.spec_id())@, table_key(row, col)),
            ),
            final(self).spec_created() == old(self).spec_created(),
            final(self).spec_destroyed() == old(self).spec_destroyed(),
            forall|x: u64| final(self).is_live(x) == old(self).is_live(x),
            forall|x: u64|
                x != h.spec_id() && old(self).is_live(x) ==> final(self).table_at(x) == old(
                    self,
                ).table_at(x),
    {
        let i = self.find_slot(&h);
        proof {
            lemma_table_at_index(*old(self), i as int);
        }
        self.slots[i].table.set_text(row, col, val.to_owned());
        proof {
            lemma_update_table(*old(self), *self, i as int);
        }
    }

    /// Reads the numeric value at a coordinate of the table at a live
    /// identifier.
    pub(crate) fn get_cell_number(&self, h: TableHandle, row: i32, col: i32) -> (bits: u64)
        requires
            self.wf(),
            self.is_live(h.spec_id()),
        ensures
            bits == cell_number(self.table_at(h.spec_id())@, row, col),
    {
        let i = self.find_slot(&h);
        proof {
            lemma_table_at_index(*self, i as int);
        }
        self.slots[i].table.get_number(row, col)
    }

    /// Evaluates a formula against the table at a live identifier.
    pub(crate) fn eval_formula(&self, h: TableHandle, formula: &str) -> (out: Vec<u64>)
        requires
            self.wf(),
            self.is_live(h.spec_id()),
        ensures
            is_sum_formula(formula.spec_bytes()) ==> out@.to_multiset() == self.table_at(
                h.spec_id(),
            ).nums(),
            !is_sum_formula(formula.spec_bytes()) ==> out@ == Seq::<u64>::empty(),
    {
        let i = self.find_slot(&h);
        proof {
            lemma_table_at_index(*self, i as int);
        }
        self.slots[i].table.eval(formula)
    }
}

/// Replacing the table in one slot, all handles and counters unchanged,
/// keeps the runtime coherent, keeps every identifier's liveness, and leaves
/// the table of every other live identifier untouched.
proof fn lemma_update_table(old_rt: Runtime, new_rt: Runtime, i: int)
    requires
        old_rt.wf(),
        0 <= i < old_rt.slots@.len(),
        new_rt.slots@.len() == old_rt.slots@.len(),
        forall|j: int|
            0 <= j < new_rt.slots@.len() ==> (#[trigger] new_rt.slots@[j]).handle
                == old_rt.slots@[j].handle,
        forall|j: int|
            0 <= j < new_rt.slots@.len() && j != i ==> (#[trigger] new_rt.slots@[j])
                == old_rt.slots@[j],
        new_rt.slots@[i].table.wf(),
        new_rt.created == old_rt.created,
        new_rt.destroyed == old_rt.destroyed,
    ensures
        new_rt.wf(),
        forall|x: u64| new_rt.is_live(x) == old_rt.is_live(x),
        new_rt.table_at(old_rt.slots@[i].handle.id) == new_rt.slots@[i].table,
        forall|x: u64|
            x != old_rt.slots@[i].handle.id && old_rt.is_live(x) ==> new_rt.table_at(x)
                == old_rt.table_at(x),
{
    let id = old_rt.slots@[i].handle.id;
    assert forall|p: int, q: int| 0 <= p < q < new_rt.slots@.len() implies new_rt.slots@[p].handle.id
        != new_rt.slots@[q].handle.id by {
        assert(new_rt.slots@[p].handle == old_rt.slots@[p].handle);
        assert(new_rt.slots@[q].handle == old_rt.slots@[q].handle);
    }
    assert forall|j: int| 0 <= j < new_rt.slots@.len() implies (
    #[trigger] new_rt.slots@[j]).table.wf() by {
        if j != i {
            assert(new_rt.slots@[j] == old_rt.slots@[j]);
        }
    }
    assert forall|x: u64| new_rt.is_live(x) == old_rt.is_live(x) by {
        if old_rt.is_live(x) {
            let j = choose|j: int|
                0 <= j < old_rt.slots@.len() && old_rt.slots@[j].handle.id == x;
            assert(new_rt.slots@[j].handle.id == x);
        }
        if new_rt.is_live(x) {
            let j = choose|j: int|
                0 <= j < new_rt.slots@.len() && new_rt.slots@[j].handle.id == x;
            assert(old_rt.slots@[j].handle.id == x);
        }
    }
    lemma_table_at_index(new_rt, i);
    assert forall|x: u64| x != id && old_rt.is_live(x) implies new_rt.table_at(x)
        == old_rt.table_at(x) by {
        let j = choose|j: int| 0 <= j < old_rt.slots@.len() && old_rt.slots@[j].handle.id == x;
        lemma_table_at_index(old_rt, j);
        assert(j != i);
        assert(new_rt.slots@[j] == old_rt.slots@[j]);
        lemma_table_at_index(new_rt, j);
    }
}

/// The exclusive owner of one runtime-resident table.
///
/// A `SafeTable` is obtained only from [`SafeTable::new`], holds the only
/// copy of its handle, and gives it up only to [`SafeTable::release`], which
/// consumes the owner. Operating after release, or releasing twice, is
/// therefore not expressible; and verified callers must show the resource
/// live at every call, so a `SafeTable` can never outlive its resource.
pub struct SafeTable {
    handle: TableHandle,
}

impl SafeTable {
    /// The identifier of the owned resource, visible to specifications only.
    pub closed spec fn spec_id(self) -> u64 {
        self.handle.id
    }

    /// Acquires a fresh, empty table from the runtime. Fails, with the
    /// runtime unchanged and no owner produced, exactly when the runtime
    /// cannot furnish a further resource.
    pub fn new(rt: &mut Runtime) -> (r: Result<SafeTable, EngineError>)
        requires
            old(rt).wf(),
        ensures
            final(rt).wf(),
            old(rt).spec_created() < u64::MAX ==> r is Ok,
            match r {
                Ok(st) => {
                    &&& st.spec_id() == old(rt).spec_created()
                    &&& !old(rt).is_live(st.spec_id())
                    &&& final(rt).is_live(st.spec_id())
                    &&& final(rt).table_at(st.spec_id()).wf()
                    &&& final(rt).table_at(st.spec_id())@ == Map::<(int, int), CellValue>::empty()
                    &&& final(rt).table_at(st.spec_id()).nums() == Multiset::<u64>::empty()
                    &&& final(rt).spec_created() == old(rt).spec_created() + 1
                    &&& final(rt).spec_destroyed() == old(rt).spec_destroyed()
                    &&& forall|x: u64|
                        x != st.spec_id() ==> final(rt).is_live(x) == old(rt).is_live(x)
                    &&& forall|x: u64|
                        x != st.spec_id() && old(rt).is_live(x) ==> final(rt).table_at(x) == old(
                            rt,
                        ).table_at(x)
                },
                Err(e) => {
                    &&& e == EngineError::ResourceAcquisitionFailure
                    &&& old(rt).spec_created() == u64::MAX
                    &&& *final(rt) == *old(rt)
                },
            },
    {
        match rt.create_table() {
            Ok(h) => Ok(SafeTable { handle: h }),
            Err(e) => Err(e),
        }
    }

    /// Stores a numeric cell (an IEEE-754 bit pattern) at the coordinate of
    /// the owned table, replacing any prior cell there.
    pub fn set_number(&self, rt: &mut Runtime, row: i32, col: i32, bits: u64)
        requires
            old(rt).wf(),
            old(rt).is_live(self.spec_id()),
        ensures
            final(rt).wf(),
            final(rt).table_at(self.spec_id()).wf(),
            final(rt).table_at(self.spec_id())@ == old(rt).table_at(self.spec_id())@.insert(
                table_key(row, col),
                CellValue::Number(bits),
            ),
            final(rt).table_at(self.spec_id()).nums() == old(rt).table_at(self.spec_id()).nums().sub(
                num_contrib_at(old(rt).table_at(self.spec_id())@, table_key(row, col)),
            ).add(num_contrib(CellValue::Number(bits))),
            final(rt).spec_created() == old(rt).spec_created(),
            final(rt).spec_destroyed() == old(rt).spec_destroyed(),
            forall|x: u64| final(rt).is_live(x) == old(rt).is_live(x),
            forall|x: u64|
                x != self.spec_id() && old(rt).is_live(x) ==> final(rt).table_at(x) == old(
                    rt,
                ).table_at(x),
    {
        rt.set_cell_number(TableHandle { id: self.handle.id }, row, col, bits);
    }

    /// Stores a text cell at the coordinate of the owned table. Text whose
    /// encoding embeds a terminator byte cannot cross the boundary: the call
    /// fails with [`EngineError::InvalidTextEncoding`] and the runtime —
    /// the target coordinate included — is left exactly as it was.
    pub fn set_text(&self, rt: &mut Runtime, row: i32, col: i32, val: &str) -> (r: Result<
        (),
        EngineError,
    >)
        requires
            old(rt).wf(),
            old(rt).is_live(self.spec_id()),
        ensures
            final(rt).wf(),
            text_has_nul(val@) ==> r == Err::<(), EngineError>(EngineError::InvalidTextEncoding)
                && *final(rt) == *old(rt),
            !text_has_nul(val@) ==> {
                &&& r is Ok
                &&& final(rt).table_at(self.spec_id()).wf()
                &&& final(rt).table_at(self.spec_id())@ == old(rt).table_at(
                    self.spec_id(),
                )@.insert(table_key(row, col), CellValue::Text(val@))
                &&& final(rt).table_at(self.spec_id()).nums() == old(rt).table_at(
                    self.spec_id(),
                ).nums().sub(num_contrib_at(old(rt).table_at(self.spec_id())@, table_key(row, col)))
                &&& final(rt).spec_created() == old(rt).spec_created()
                &&& final(rt).spec_destroyed() == old(rt).spec_destroyed()
                &&& forall|x: u64| final(rt).is_live(x) == old(rt).is_live(x)
                &&& forall|x: u64|
                    x != self.spec_id() && old(rt).is_live(x) ==> final(rt).table_at(x) == old(
                        rt,
                    ).table_at(x)
            },
    {
        if contains_nul_byte(val) {
            return Err(EngineError::InvalidTextEncoding);
        }
        rt.set_cell_text(TableHandle { id: self.handle.id }, row, col, val);
        Ok(())
    }

    /// Reads the numeric value at a coordinate of the owned table: the
    /// stored bit pattern for a numeric cell, `0` for an absent or text
    /// cell.
    pub fn get_number(&self, rt: &Runtime, row: i32, col: i32) -> (bits: u64)
        requires
            rt.wf(),
            rt.is_live(self.spec_id()),
        ensures
            bits == cell_number(rt.table_at(self.spec_id())@, row, col),
    {
        rt.get_cell_number(TableHandle { id: self.handle.id }, row, col)
    }

    /// Evaluates a formula against the owned table: a recognized summation
    /// formula yields the bit patterns of its numeric cells, in an
    /// unspecified order; any other formula yields nothing.
    pub fn eval(&self, rt: &Runtime, formula: &str) -> (out: Vec<u64>)
        requires
            rt.wf(),
            rt.is_live(self.spec_id()),
        ensures
            is_sum_formula(formula.spec_bytes()) ==> out@.to_multiset() == rt.table_at(
                self.spec_id(),
            ).nums(),
            !is_sum_formula(formula.spec_bytes()) ==> out@ == Seq::<u64>::empty(),
    {
        rt.eval_formula(TableHandle { id: self.handle.id }, formula)
    }

    /// Gives the resource back to the runtime, exactly once: the owner is
    /// consumed, so no further operation and no second release can be
    /// written. Every other resource is untouched.
    pub fn release(self, rt: &mut Runtime)
        requires
            old(rt).wf(),
            old(rt).is_live(self.spec_id()),
        ensures
            final(rt).wf(),
            !final(rt).is_live(self.spec_id()),
            final(rt).spec_created() == old(rt).spec_created(),
            final(rt).spec_destroyed() == old(rt).spec_destroyed() + 1,
            forall|x: u64| x != self.spec_id() ==> final(rt).is_live(x) == old(rt).is_live(x),
            forall|x: u64|
                x != self.spec_id() && old(rt).is_live(x) ==> final(rt).table_at(x) == old(
                    rt,
                ).table_at(x),
    {
        rt.destroy_table(self.handle);
    }
}

/// Resource accounting law: at every coherent runtime state, every resource
/// ever created is accounted for — it was either destroyed or is live now.
/// A leaked or doubly freed resource would break this balance.
pub proof fn lemma_resource_accounting(rt: Runtime)
    requires
        rt.wf(),
    ensures
        rt.spec_created() == rt.spec_destroyed() + rt.live_count(),
{
}

/// Lifecycle law: constructing and immediately releasing `n` tables in
/// sequence creates exactly `n` resources and releases exactly `n` — no
/// leak and no double free — and leaves every pre-existing resource, its
/// contents included, exactly as it was.
pub fn cycle_tables(rt: &mut Runtime, n: u64)
    requires
        old(rt).wf(),
        old(rt).spec_created() + n <= u64::MAX,
    ensures
        final(rt).wf(),
        final(rt).spec_created() == old(rt).spec_created() + n,
        final(rt).spec_destroyed() == old(rt).spec_destroyed() + n,
        final(rt).live_count() == old(rt).live_count(),
        forall|x: u64| final(rt).is_live(x) == old(rt).is_live(x),
        forall|x: u64| old(rt).is_live(x) ==> final(rt).table_at(x) == old(rt).table_at(x),
{
    let mut k: u64 = 0;
    while k < n
        invariant
            k <= n,
            old(rt).spec_created() + n <= u64::MAX,
            rt.wf(),
            rt.spec_created() == old(rt).spec_created() + k,
            rt.spec_destroyed() == old(rt).spec_destroyed() + k,
            forall|x: u64| rt.is_live(x) == old(rt).is_live(x),
            forall|x: u64| old(rt).is_live(x) ==> rt.table_at(x) == old(rt).table_at(x),
        decreases n - k,
    {
        let ghost prev = *rt;
        match SafeTable::new(rt) {
            Ok(st) => {
                proof {
                    lemma_fresh_not_live(prev, st.spec_id());
                }
                st.release(rt);
            },
            Err(_) => {
                proof {
                    assert(false);
                }
            },
        }
        k += 1;
    }
    proof {
        lemma_resource_accounting(*old(rt));
        lemma_resource_accounting(*rt);
    }
}

} // verus!
