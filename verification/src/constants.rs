//! Offsets between neighbouring cells and the costs of stepping between them,
//! in thousandths of the side of a cell.

use vstd::prelude::*;

verus! {

/// The steps along an axis.
pub const CARDINAL_POSITIONS: [(i32, i32); 4] = [(1, 0), (-1, 0), (0, 1), (0, -1)];

/// The steps across a corner.
pub const DIAGONAL_POSITIONS: [(i32, i32); 4] = [(1, 1), (-1, -1), (1, -1), (-1, 1)];

/// All steps in one list.
pub const ALL_OFFSETS: [(i32, i32); 8] = [
    (1, 0),
    (-1, 0),
    (1, 0),
    (-1, 0),
    (1, 1),
    (-1, -1),
    (1, -1),
    (-1, 1),
];

/// The largest cost that is counted as a cost: ten thousand steps along an
/// axis.
pub const MAX_COST: i32 = 10000 * 1000;

/// The cost of a step onto a cell that cannot be walked on. No way that
/// keeps to cells that can be walked on, and enters none twice, costs as
/// much: it has fewer than `2^32` steps of at most `SQRT_FIXED` each.
pub const WALL_COST: i64 = 0x800_0000_0000;

/// The cost of a step along an axis.
pub const UNIT_COST: i32 = 1000;

/// The cost of a step across a corner: the square root of two, in
/// thousandths.
pub const SQRT_FIXED: i32 = 1414;

} // verus!
