//! A rectangular grid of cells centred on the origin, and the mapping from
//! signed coordinates to row-major cell indices.

use vstd::prelude::*;

verus! {

/// The extent of a grid that reaches `half_width` cells to the left and right
/// of the origin and `half_height` cells above and below it.
///
/// Cells are numbered row by row, starting with the row of the smallest `y`,
/// and within a row from the smallest `x`. For half extents 2 and 3 the cell
/// `(-2, -3)` has index 0, `(2, -3)` has index 4, `(-2, -2)` has index 5 and
/// `(2, 3)` has index 34.
#[derive(Copy, Clone)]
pub struct Bounds {
    width: usize,
    height: usize,
    half_width: usize,
    half_height: usize,
    max: usize,
}

impl Bounds {
    #[verifier::type_invariant]
    spec fn well_formed(self) -> bool {
        &&& self.width == 2 * self.half_width + 1
        &&& self.height == 2 * self.half_height + 1
        &&& self.max == self.width * self.height
        &&& self.max <= i32::MAX
    }

    /// Cells to either side of the origin, horizontally.
    pub closed spec fn half_width(self) -> nat {
        self.half_width as nat
    }

    /// Cells to either side of the origin, vertically.
    pub closed spec fn half_height(self) -> nat {
        self.half_height as nat
    }

    /// Cells in one row.
    pub open spec fn width(self) -> nat {
        2 * self.half_width() + 1
    }

    /// Number of rows.
    pub open spec fn height(self) -> nat {
        2 * self.half_height() + 1
    }

    /// Number of cells in the grid.
    pub open spec fn cell_count(self) -> nat {
        self.width() * self.height()
    }

    /// The extent with these half extents.
    pub closed spec fn of(half_width: nat, half_height: nat) -> Bounds {
        Bounds {
            width: (2 * half_width + 1) as usize,
            height: (2 * half_height + 1) as usize,
            half_width: half_width as usize,
            half_height: half_height as usize,
            max: ((2 * half_width + 1) * (2 * half_height + 1)) as usize,
        }
    }

    /// Whether a grid with these half extents can be indexed: its cell count
    /// has to fit in an `i32`.
    pub open spec fn representable(half_width: nat, half_height: nat) -> bool {
        (2 * half_width + 1) * (2 * half_height + 1) <= i32::MAX
    }

    /// The index that `get_index` gives to `(x, y)`.
    ///
    /// The column `x + half_width` may range from 0 to the width, and the row
    /// `y + half_height` from 0 to the height, both ends included; outside of
    /// that the result is `usize::MAX`. A position inside the grid gets the
    /// index of its cell. A position one column beyond the right edge, or one
    /// row beyond the last, gets the number that row-major counting continues
    /// with, which names no cell of its own.
    pub open spec fn index_of(self, x: int, y: int) -> int {
        let column = x + self.half_width();
        let row = y + self.half_height();
        if column < 0 || column > self.width() || row < 0 || row > self.height() {
            usize::MAX as int
        } else {
            row * self.width() + column
        }
    }

    /// Whether `(x, y)` is a cell of the grid.
    pub open spec fn contains(self, x: int, y: int) -> bool {
        &&& -(self.half_width() as int) <= x <= self.half_width()
        &&& -(self.half_height() as int) <= y <= self.half_height()
    }

    pub fn new(half_width: usize, half_height: usize) -> (bounds: Self)
        requires
            Self::representable(half_width as nat, half_height as nat),
        ensures
            bounds == Self::of(half_width as nat, half_height as nat),
            bounds.half_width() == half_width,
            bounds.half_height() == half_height,
    {
        proof {
            lemma_factors_bounded(2 * half_width + 1, 2 * half_height + 1, i32::MAX as int);
        }
        let width: usize = half_width * 2 + 1;
        let height: usize = half_height * 2 + 1;
        Self { width, height, half_width, half_height, max: width * height }
    }

    #[inline]
    pub fn is_in_bounds(self, x: i32, y: i32) -> (inside: bool)
        ensures
            inside == (self.index_of(x as int, y as int) != usize::MAX),
    {
        self.get_index(x, y) != usize::MAX
    }

    #[inline]
    pub fn get_index(self, x: i32, y: i32) -> (index: usize)
        ensures
            index == self.index_of(x as int, y as int),
            self.contains(x as int, y as int) ==> index < self.cell_count(),
    {
        proof {
            use_type_invariant(&self);
            lemma_factors_bounded(self.width as int, self.height as int, i32::MAX as int);
        }
        let column: i64 = x as i64 + self.half_width as i64;
        if column < 0 || column > self.width as i64 {
            return usize::MAX;
        }
        let row: i64 = y as i64 + self.half_height as i64;
        if row < 0 || row > self.height as i64 {
            return usize::MAX;
        }
        proof {
            lemma_row_major_bounded(row as int, column as int, self.width as int, self.height as int);
        }
        (row * self.width as i64 + column) as usize
    }
}

/// Each of two positive factors is at most their product.
proof fn lemma_factors_bounded(a: int, b: int, limit: int)
    requires
        a >= 1,
        b >= 1,
        a * b <= limit,
    ensures
        a <= limit,
        b <= limit,
        a * b >= 1,
{
    assert(a <= a * b && b <= a * b && a * b >= 1) by (nonlinear_arith)
        requires
            a >= 1,
            b >= 1,
    ;
}

/// Bounds on a row-major index.
proof fn lemma_row_major_bounded(row: int, column: int, width: int, height: int)
    requires
        0 <= row <= height,
        0 <= column <= width,
        width >= 1,
    ensures
        0 <= row * width + column <= height * width + width,
        (row < height && column < width) ==> row * width + column < width * height,
{
    assert(0 <= row * width <= height * width) by (nonlinear_arith)
        requires
            0 <= row <= height,
            width >= 1,
    ;
    if row < height && column < width {
        assert(row * width + width <= width * height) by (nonlinear_arith)
            requires
                0 <= row < height,
                width >= 1,
        ;
    }
}

/// A cell of the world: where it lies, whether it can be walked on, and how
/// fast.
#[derive(Clone, Copy, Debug)]
pub struct Block {
    pub x: i32,
    pub y: i32,
    pub passable: bool,
    pub terrain_speed: i32,
}

impl Block {
    /// A cell at `(x, y)` that cannot be walked on.
    pub fn impassable(x: i32, y: i32) -> (block: Self)
        ensures
            block == Self::spec_impassable(x as int, y as int),
    {
        Self { x, y, passable: false, terrain_speed: 0 }
    }

    /// A cell at `(x, y)` that can be walked on at the usual speed.
    pub fn passable(x: i32, y: i32) -> (block: Self)
        ensures
            block == Self::spec_passable(x, y),
    {
        Self { x, y, passable: true, terrain_speed: 1 }
    }

    /// The cell at `(x, y)` that cannot be walked on.
    pub open spec fn spec_impassable(x: int, y: int) -> Block {
        Block { x: x as i32, y: y as i32, passable: false, terrain_speed: 0 }
    }

    /// The cell at `(x, y)` that can be walked on at the usual speed.
    pub open spec fn spec_passable(x: i32, y: i32) -> Block {
        Block { x, y, passable: true, terrain_speed: 1 }
    }

    /// `format!` with `"{},{}"`: the two coordinates as `i32` prints them, the
    /// first before a comma and the second after it.
    #[verifier::external_body]
    #[inline]
    pub fn string_hash(&self) -> (text: String)
        ensures
            text@ == decimal(self.x as int) + seq![','] + decimal(self.y as int),
    {
        format!("{},{}", self.x, self.y)
    }
}

/// What printing an `i32` gives: its digits to the base of ten, after a minus
/// sign where it is negative.
pub uninterp spec fn decimal(number: int) -> Seq<char>;

/// The number that stands for the place `(x, y)` where one number has to
/// stand for a place: places are counted column by column from the smallest
/// `x`, and in a column from the smallest `y`.
pub open spec fn key_of(x: int, y: int) -> int {
    (x - i32::MIN) * 0x1_0000_0000 + (y - i32::MIN)
}

/// The place that `key` stands for.
pub open spec fn place_of(key: u64) -> (i32, i32) {
    ((key / 0x1_0000_0000 + i32::MIN) as i32, (key % 0x1_0000_0000 + i32::MIN) as i32)
}

/// The number that stands for the place `(x, y)`.
pub fn place_key(x: i32, y: i32) -> (key: u64)
    ensures
        key == key_of(x as int, y as int),
        place_of(key) == (x, y),
{
    let column: u64 = (x as i64 - i32::MIN as i64) as u64;
    let row: u64 = (y as i64 - i32::MIN as i64) as u64;
    column * 0x1_0000_0000 + row
}

/// The place that `key` stands for.
pub fn key_place(key: u64) -> (place: (i32, i32))
    ensures
        place == place_of(key),
        key_of(place.0 as int, place.1 as int) == key,
{
    let x: i64 = (key / 0x1_0000_0000) as i64 + i32::MIN as i64;
    let y: i64 = (key % 0x1_0000_0000) as i64 + i32::MIN as i64;
    (x as i32, y as i32)
}

impl From<(i32, i32, i32)> for Block {
    /// The cell at the first two numbers that is walked on at the speed that
    /// the third gives, and not at all if that is zero.
    fn from(val: (i32, i32, i32)) -> (block: Self) {
        Self { x: val.0, y: val.1, passable: val.2 != 0, terrain_speed: val.2 }
    }
}

impl vstd::std_specs::convert::FromSpecImpl<(i32, i32, i32)> for Block {
    open spec fn obeys_from_spec() -> bool {
        true
    }

    open spec fn from_spec(val: (i32, i32, i32)) -> Self {
        Block { x: val.0, y: val.1, passable: val.2 != 0, terrain_speed: val.2 }
    }
}

/// The cells of a grid before any cell is described: none can be walked on.
pub open spec fn blank(bounds: Bounds) -> Seq<Block> {
    Seq::new(
        bounds.cell_count(),
        |i: int|
            Block::spec_impassable(
                i % (bounds.width() as int) - bounds.half_width(),
                i / (bounds.width() as int) - bounds.half_height(),
            ),
    )
}

/// The cells after the first `count` of `described` have been put in their
/// places, each at the index of its coordinates. A later description of a
/// place replaces an earlier one; one whose index names no cell is left out.
pub open spec fn overlaid(bounds: Bounds, described: Seq<Block>, count: int) -> Seq<Block>
    decreases count,
{
    if count <= 0 {
        blank(bounds)
    } else {
        let before = overlaid(bounds, described, count - 1);
        let block = described[count - 1];
        let index = bounds.index_of(block.x as int, block.y as int);
        if index < bounds.cell_count() {
            before.update(index, block)
        } else {
            before
        }
    }
}

/// The cells of a world, row by row.
#[derive(Debug)]
pub struct Grid {
    width: usize,
    height: usize,
    inner: Vec<Block>,
}

impl Grid {
    #[verifier::type_invariant]
    spec fn well_formed(&self) -> bool {
        Bounds::representable((self.width / 2) as nat, (self.height / 2) as nat)
    }

    /// The cells, row by row.
    pub closed spec fn view(&self) -> Seq<Block> {
        self.inner@
    }

    /// Cells in one row, as the grid was made.
    pub closed spec fn width(&self) -> nat {
        self.width as nat
    }

    /// Number of rows, as the grid was made.
    pub closed spec fn height(&self) -> nat {
        self.height as nat
    }

    /// The extent by which coordinates are turned into indices.
    pub closed spec fn bounds(&self) -> Bounds {
        Bounds::of((self.width / 2) as nat, (self.height / 2) as nat)
    }

    /// The cell that a lookup at `(x, y)` finds, if any.
    pub open spec fn cell_at(&self, x: int, y: int) -> Option<Block> {
        let index = self.bounds().index_of(x, y);
        if index < self@.len() {
            Some(self@[index])
        } else {
            None
        }
    }

    pub fn get_bounds(&self) -> (bounds: Bounds)
        ensures
            bounds == self.bounds(),
            bounds.half_width() == self.width() / 2,
            bounds.half_height() == self.height() / 2,
    {
        proof {
            use_type_invariant(self);
            lemma_factors_bounded(
                2 * (self.width / 2) + 1,
                2 * (self.height / 2) + 1,
                i32::MAX as int,
            );
        }
        Bounds::new(self.width / 2, self.height / 2)
    }

    pub fn get_pos_info_ref(&self, x: i32, y: i32) -> (found: Option<&Block>)
        ensures
            match found {
                Some(block) => self.cell_at(x as int, y as int) == Some(*block),
                None => self.cell_at(x as int, y as int) is None,
            },
    {
        let index = self.get_bounds().get_index(x, y);
        if index < self.inner.len() {
            Some(&self.inner[index])
        } else {
            None
        }
    }

    pub fn get_pos_info(&self, x: i32, y: i32) -> (found: Option<Block>)
        ensures
            found == self.cell_at(x as int, y as int),
    {
        match self.get_pos_info_ref(x, y) {
            Some(block) => Some(*block),
            None => None,
        }
    }

    /// The grid with the given half extents in which the described cells are
    /// as described and all others cannot be walked on.
    pub fn with_unchecked_pos_infos(pos_infos: &[Block], half_width: usize, half_height: usize) -> (grid:
        Self)
        requires
            Bounds::representable(half_width as nat, half_height as nat),
        ensures
            grid.width() == 2 * half_width + 1,
            grid.height() == 2 * half_height + 1,
            grid@ == overlaid(grid.bounds(), pos_infos@, pos_infos@.len() as int),
            grid@.len() == grid.bounds().cell_count(),
    {
        let bounds = Bounds::new(half_width, half_height);
        proof {
            lemma_factors_bounded(2 * half_width + 1, 2 * half_height + 1, i32::MAX as int);
        }
        let width: usize = half_width * 2 + 1;
        let height: usize = half_height * 2 + 1;
        let max: usize = width * height;
        let mut cells: Vec<Block> = Vec::with_capacity(max);
        let mut row: usize = 0;
        while row < height
            invariant
                row <= height,
                width == 2 * half_width + 1,
                height == 2 * half_height + 1,
                width * height <= i32::MAX,
                width <= i32::MAX,
                height <= i32::MAX,
                blank(bounds).len() == width * height,
                bounds.half_width() == half_width,
                bounds.half_height() == half_height,
                cells@.len() == row * width,
                forall|i: int| 0 <= i < cells@.len() ==> cells@[i] == blank(bounds)[i],
            decreases height - row,
        {
            let mut column: usize = 0;
            proof {
                lemma_row_major_bounded(row as int, 0, width as int, height as int);
            }
            while column < width
                invariant
                    row < height,
                    column <= width,
                    width == 2 * half_width + 1,
                    height == 2 * half_height + 1,
                    width * height <= i32::MAX,
                    width <= i32::MAX,
                    height <= i32::MAX,
                    blank(bounds).len() == width * height,
                    bounds.half_width() == half_width,
                    bounds.half_height() == half_height,
                    cells@.len() == row * width + column,
                    forall|i: int| 0 <= i < cells@.len() ==> cells@[i] == blank(bounds)[i],
                decreases width - column,
            {
                proof {
                    lemma_row_major_bounded(row as int, column as int, width as int, height as int);
                    lemma_row_major_split(row as int, column as int, width as int);
                }
                let x: i32 = column as i32 - half_width as i32;
                let y: i32 = row as i32 - half_height as i32;
                cells.push(Block::impassable(x, y));
                column = column + 1;
            }
            row = row + 1;
            assert(cells@.len() == row * width) by (nonlinear_arith)
                requires
                    cells@.len() == (row - 1) * width + width,
            ;
        }
        assert(height * width == width * height) by (nonlinear_arith);
        assert(cells@ =~= blank(bounds));
        let mut at: usize = 0;
        while at < pos_infos.len()
            invariant
                at <= pos_infos@.len(),
                max == bounds.cell_count(),
                cells@.len() == max,
                cells@ == overlaid(bounds, pos_infos@, at as int),
            decreases pos_infos.len() - at,
        {
            let block = pos_infos[at];
            let index = bounds.get_index(block.x, block.y);
            if index < max {
                cells.set(index, block);
            }
            at = at + 1;
        }
        Self { width, height, inner: cells }
    }

    /// The grid of the given width and height with exactly these cells.
    pub fn with_full_pos_infos(pos_infos: &[Block], width: usize, height: usize) -> (grid: Self)
        requires
            Bounds::representable((width / 2) as nat, (height / 2) as nat),
        ensures
            grid@ == pos_infos@,
            grid.width() == width,
            grid.height() == height,
    {
        let mut cells: Vec<Block> = Vec::with_capacity(pos_infos.len());
        let mut at: usize = 0;
        while at < pos_infos.len()
            invariant
                at <= pos_infos@.len(),
                cells@ == pos_infos@.subrange(0, at as int),
            decreases pos_infos.len() - at,
        {
            cells.push(pos_infos[at]);
            assert(cells@ =~= pos_infos@.subrange(0, at + 1));
            at = at + 1;
        }
        assert(cells@ =~= pos_infos@);
        Self { width, height, inner: cells }
    }

    /// The number of cells.
    pub fn cell_count(&self) -> (count: usize)
        ensures
            count == self@.len(),
    {
        self.inner.len()
    }

    /// The cell with this index, if there is one.
    pub fn cell(&self, index: usize) -> (found: Option<&Block>)
        ensures
            match found {
                Some(block) => index < self@.len() && *block == self@[index as int],
                None => index >= self@.len(),
            },
    {
        if index < self.inner.len() {
            Some(&self.inner[index])
        } else {
            None
        }
    }

    /// The cells, row by row.
    pub fn into_inner(self) -> (cells: Vec<Block>)
        ensures
            cells@ == self@,
    {
        self.inner
    }
}

/// A row-major index gives back its row and column.
proof fn lemma_row_major_split(row: int, column: int, width: int)
    requires
        0 <= row,
        0 <= column < width,
    ensures
        (row * width + column) % width == column,
        (row * width + column) / width == row,
{
    vstd::arithmetic::div_mod::lemma_fundamental_div_mod_converse(
        row * width + column,
        width,
        row,
        column,
    );
}

} // verus!
