//! Validation of tables found from ruling lines.

use vstd::prelude::*;

use crate::tables::{grid_size_ok, has_valid_grid, valid_grid};

verus! {

/// Validate that cells form a reasonable table from line-based detection:
/// at least two rows and two columns, and at least 20% of the cells
/// filled (line-based grids can be sparser).
pub fn is_valid_grid_table(cells: &[Vec<String>]) -> (r: bool)
    requires
        grid_size_ok(cells@),
    ensures
        r == valid_grid(cells@, 20),
{
    has_valid_grid(cells, 20)
}

} // verus!
