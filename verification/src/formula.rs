//! Formula recognition.
//!
//! A formula is dispatched on its leading keyword. The one recognized
//! operator is `SUM`: any formula whose UTF-8 encoding begins with the four
//! bytes `=SUM` selects the summation of every numeric cell in the table.
//! Every other formula text is unrecognized and evaluates to nothing.

use vstd::prelude::*;
use vstd::string::StringSliceAdditionalSpecFns;

verus! {

/// Whether a formula's byte encoding starts with `=SUM` and thus selects
/// the summation operator.
pub open spec fn is_sum_formula(bytes: Seq<u8>) -> bool {
    &&& bytes.len() >= 4
    &&& bytes[0] == 61u8  // '='
    &&& bytes[1] == 83u8  // 'S'
    &&& bytes[2] == 85u8  // 'U'
    &&& bytes[3] == 77u8  // 'M'
}

/// Decides whether the formula text selects the summation operator.
pub fn recognizes_sum(formula: &str) -> (b: bool)
    ensures
        b == is_sum_formula(formula.spec_bytes()),
{
    let bytes = formula.as_bytes();
    bytes.len() >= 4 && bytes[0] == 61u8 && bytes[1] == 83u8 && bytes[2] == 85u8 && bytes[3]
        == 77u8
}

} // verus!
