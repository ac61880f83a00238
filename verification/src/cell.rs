//! Typed cell values.
//!
//! A cell holds exactly one active value, either numeric or textual. The
//! numeric value is kept as the 64-bit IEEE-754 bit pattern of the number it
//! denotes; the bit pattern `0` stands for positive zero, the value an absent
//! or non-numeric cell reads as.

use vstd::prelude::*;

verus! {

/// Which variant of a [`Cell`] is active.
pub enum CellKind {
    Number,
    Text,
}

/// A single typed value stored at one table coordinate.
///
/// `kind` selects the active field: a `Number` cell carries `num_val` (an
/// IEEE-754 bit pattern) and an empty `text_val`; a `Text` cell carries
/// `text_val` and a zero `num_val`. [`Cell::wf`] states this discipline.
pub struct Cell {
    pub kind: CellKind,
    pub num_val: u64,
    pub text_val: String,
}

/// The mathematical value of a cell: a tagged value with exactly one variant
/// active, numbers abstracted to their bit patterns and text to its
/// character sequence.
pub enum CellValue {
    Number(u64),
    Text(Seq<char>),
}

impl View for Cell {
    type V = CellValue;

    open spec fn view(&self) -> CellValue {
        match self.kind {
            CellKind::Number => CellValue::Number(self.num_val),
            CellKind::Text => CellValue::Text(self.text_val@),
        }
    }
}

impl Cell {
    /// The inactive field holds its neutral value, so a cell carries no
    /// hidden state beside its view.
    pub open spec fn wf(self) -> bool {
        match self.kind {
            CellKind::Number => self.text_val@ == Seq::<char>::empty(),
            CellKind::Text => self.num_val == 0,
        }
    }

    /// A numeric cell holding the given bit pattern.
    pub fn number(bits: u64) -> (c: Cell)
        ensures
            c@ == CellValue::Number(bits),
            c.wf(),
    {
        Cell { kind: CellKind::Number, num_val: bits, text_val: String::new() }
    }

    /// A text cell holding the given string.
    pub fn text(val: String) -> (c: Cell)
        ensures
            c@ == CellValue::Text(val@),
            c.wf(),
    {
        Cell { kind: CellKind::Text, num_val: 0, text_val: val }
    }
}

} // verus!
