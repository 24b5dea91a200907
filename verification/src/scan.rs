//! The order of a scan row by row.

use vstd::prelude::*;

verus! {

/// Whether a scan row by row, each row from left to right, visits column `x`
/// of row `y` before it comes to column `until_x` of row `until_y`.
pub open spec fn scanned(x: int, y: int, until_x: int, until_y: int) -> bool {
    y < until_y || (y == until_y && x < until_x)
}

} // verus!
