//! The board of tiles, parsed from a text grid and held in a fixed-size
//! two-dimensional array of an outside crate. A tile is accessible exactly
//! when its description character is not a space.

use vstd::prelude::*;

use crate::graphics::Visual;

verus! {

#[verifier::external_type_specification]
#[verifier::external_body]
#[verifier::reject_recursive_types(T)]
pub struct ExArray2D<T>(array2d::Array2D<T>);

/// What a grid holds: its cells in row-major order.
pub uninterp spec fn grid_cells(g: array2d::Array2D<bool>) -> Seq<bool>;

/// The dimensions a grid was made with: its row count, then its column count.
pub uninterp spec fn grid_dims(g: array2d::Array2D<bool>) -> (nat, nat);

/// Relies on `array2d::Array2D::from_row_major`: `Ok` exactly when the
/// element count equals `num_rows * num_columns`, holding those elements in
/// row-major order with those dimensions.
#[verifier::external_body]
fn grid_from_row_major(elements: &Vec<bool>, num_rows: usize, num_columns: usize) -> (r: Option<
    array2d::Array2D<bool>,
>)
    requires
        num_rows * num_columns <= usize::MAX,
    ensures
        r is Some <==> num_rows * num_columns == elements@.len(),
        r matches Some(g) ==> grid_cells(g) == elements@ && grid_dims(g) == (
            num_rows as nat,
            num_columns as nat,
        ),
{
    array2d::Array2D::from_row_major(elements.as_slice(), num_rows, num_columns).ok()
}

/// Relies on `array2d::Array2D::get`: `Some` exactly for in-bounds indices,
/// returning the element at `row * num_columns + column` of the row-major
/// cells.
#[verifier::external_body]
fn grid_get(g: &array2d::Array2D<bool>, row: usize, column: usize) -> (r: Option<bool>)
    ensures
        r is Some <==> (row < grid_dims(*g).0 && column < grid_dims(*g).1),
        r matches Some(b) ==> b == grid_cells(*g)[row * grid_dims(*g).1 + column],
{
    g.get(row, column).copied()
}

/// Relies on `array2d::Array2D::num_rows`: the row count the grid was made
/// with.
#[verifier::external_body]
fn grid_num_rows(g: &array2d::Array2D<bool>) -> (r: usize)
    ensures
        r == grid_dims(*g).0,
{
    g.num_rows()
}

/// Relies on `array2d::Array2D::num_columns`: the column count the grid was
/// made with.
#[verifier::external_body]
fn grid_num_columns(g: &array2d::Array2D<bool>) -> (r: usize)
    ensures
        r == grid_dims(*g).1,
{
    g.num_columns()
}

/// The number of line breaks in a description.
pub open spec fn newline_count(s: Seq<char>) -> int
    decreases s.len(),
{
    if s.len() == 0 {
        0
    } else {
        newline_count(s.drop_last()) + (if s.last() == '\n' {
            1int
        } else {
            0
        })
    }
}

/// The length of the last line of a description: the characters after the
/// last line break, or the whole description when there is none.
pub open spec fn last_line_len(s: Seq<char>) -> int
    decreases s.len(),
{
    if s.len() == 0 {
        0
    } else if s.last() == '\n' {
        0
    } else {
        last_line_len(s.drop_last()) + 1
    }
}

/// The tiles of a description: every character except line breaks, in order,
/// accessible exactly when the character is not a space.
pub open spec fn tiles_of(s: Seq<char>) -> Seq<bool>
    decreases s.len(),
{
    if s.len() == 0 {
        Seq::empty()
    } else if s.last() == '\n' {
        tiles_of(s.drop_last())
    } else {
        tiles_of(s.drop_last()).push(s.last() != ' ')
    }
}

/// The row count a description parses to: one more than its line breaks.
pub open spec fn desc_rows(s: Seq<char>) -> int {
    newline_count(s) + 1
}

/// The column count a description parses to: the length of its last line.
pub open spec fn desc_cols(s: Seq<char>) -> int {
    last_line_len(s)
}

/// A description parses exactly when its tiles fill the `rows x cols` grid,
/// which holds when every line has the length of the last one.
pub open spec fn parses(s: Seq<char>) -> bool {
    desc_rows(s) * desc_cols(s) == tiles_of(s).len()
}

/// The fixed grid of board tiles; the abstraction is a row count, a column
/// count, and the row-major accessibility of each cell.
pub struct Board {
    tiles: array2d::Array2D<bool>,
}

impl Board {
    /// The number of tile rows.
    pub closed spec fn rows(self) -> nat {
        grid_dims(self.tiles).0
    }

    /// The number of tile columns.
    pub closed spec fn cols(self) -> nat {
        grid_dims(self.tiles).1
    }

    /// The accessibility of each tile, row-major.
    pub closed spec fn cells(self) -> Seq<bool> {
        grid_cells(self.tiles)
    }

    /// The cells fill the grid.
    pub open spec fn wf(self) -> bool {
        self.cells().len() == self.rows() * self.cols()
    }

    /// The tile at column `x` of row `y` exists and can be walked on.
    pub open spec fn accessible_at(self, x: int, y: int) -> bool {
        &&& 0 <= y < self.rows()
        &&& 0 <= x < self.cols()
        &&& self.cells()[y * self.cols() + x]
    }

    /// Parses a text grid: one row per line, a tile per character, space
    /// inaccessible, anything else accessible. Returns `None` when the lines
    /// do not fill a rectangle of the last line's width.
    #[verifier::loop_isolation(false)]
    pub fn from_string(desc: &str) -> (r: Option<Board>)
        ensures
            r is Some <==> (parses(desc@) && desc_rows(desc@) <= usize::MAX),
            r matches Some(b) ==> b.wf() && b.rows() == desc_rows(desc@) && b.cols() == desc_cols(
                desc@,
            ) && b.cells() == tiles_of(desc@),
    {
        let n = desc.unicode_len();
        let mut tiles: Vec<bool> = Vec::new();
        let mut w: usize = 0;
        let mut h: usize = 0;
        let mut i: usize = 0;
        while i < n
            invariant
                n == desc@.len(),
                i <= n,
                tiles@ == tiles_of(desc@.take(i as int)),
                w == newline_count(desc@.take(i as int)),
                h == last_line_len(desc@.take(i as int)),
        decreases n - i,
        {
            proof {
                assert(desc@.take(i as int + 1).drop_last() =~= desc@.take(i as int));
                assert(desc@.take(i as int + 1).last() == desc@[i as int]);
                assert(tiles_of(desc@.take(i as int)).len() <= i) by {
                    lemma_tiles_len(desc@.take(i as int));
                }
                assert(newline_count(desc@.take(i as int)) <= i) by {
                    lemma_counts_len(desc@.take(i as int));
                }
                assert(last_line_len(desc@.take(i as int)) <= i) by {
                    lemma_counts_len(desc@.take(i as int));
                }
            }
            let c = desc.get_char(i);
            if c == '\n' {
                w = w + 1;
                h = 0;
            } else {
                tiles.push(c != ' ');
                h = h + 1;
            }
            i = i + 1;
        }
        proof {
            assert(desc@.take(n as int) =~= desc@);
            lemma_counts_len(desc@);
            lemma_tiles_len(desc@);
        }
        if w == usize::MAX {
            return None;
        }
        let rows = w + 1;
        let cols = h;
        proof {
            assert((rows as u128) * (cols as u128) < u128::MAX) by (nonlinear_arith)
                requires
                    rows as u128 <= 0xFFFF_FFFF_FFFF_FFFFu128,
                    cols as u128 <= 0xFFFF_FFFF_FFFF_FFFFu128,
            ;
        }
        if (rows as u128) * (cols as u128) != tiles.len() as u128 {
            return None;
        }
        let grid = grid_from_row_major(&tiles, rows, cols);
        match grid {
            Some(g) => Some(Board { tiles: g }),
            None => None,
        }
    }

    /// The number of tile rows.
    pub fn row_count(&self) -> (r: usize)
        ensures
            r == self.rows(),
    {
        grid_num_rows(&self.tiles)
    }

    /// The number of tile columns.
    pub fn col_count(&self) -> (r: usize)
        ensures
            r == self.cols(),
    {
        grid_num_columns(&self.tiles)
    }

    /// One visual per tile, row-major: content 1 for an accessible tile, 0
    /// for an inaccessible one, never carrying an identifier.
    #[verifier::loop_isolation(false)]
    pub fn get_visuals(&self) -> (r: Vec<Visual>)
        requires
            self.wf(),
            self.rows() <= 0xFFFF,
            self.cols() <= 0xFFFF,
        ensures
            r@ == board_visuals(*self),
    {
        let rows = grid_num_rows(&self.tiles);
        let cols = grid_num_columns(&self.tiles);
        let mut visuals: Vec<Visual> = Vec::new();
        let mut y: usize = 0;
        let ghost mut base: int = 0;
        while y < rows
            invariant
                y <= rows,
                base == y * self.cols(),
                visuals@.len() == base,
                forall|k: int| 0 <= k < base ==> visuals@[k] == board_visuals(*self)[k],
            decreases rows - y,
        {
            let mut x: usize = 0;
            while x < cols
                invariant
                    y < rows,
                    x <= cols,
                    base == y * self.cols(),
                    visuals@.len() == base + x,
                    forall|k: int| 0 <= k < base + x ==> visuals@[k] == board_visuals(*self)[k],
                decreases cols - x,
            {
                proof {
                    crate::canvas::lemma_rowmajor_in_range(
                        x as int,
                        y as int,
                        self.cols() as int,
                        self.rows() as int,
                    );
                    vstd::arithmetic::div_mod::lemma_fundamental_div_mod_converse(
                        base + x,
                        self.cols() as int,
                        y as int,
                        x as int,
                    );
                }
                let cell = grid_get(&self.tiles, y, x);
                let content: u32 = match cell {
                    Some(true) => 1,
                    Some(false) => 0,
                    None => 0,
                };
                visuals.push(Visual { content, x: x as u32, y: y as u32, id: None });
                x = x + 1;
            }
            proof {
                base = base + self.cols() as int;
                assert((y + 1) * self.cols() == y * self.cols() + self.cols()) by (nonlinear_arith);
            }
            y = y + 1;
        }
        proof {
            assert(visuals@ =~= board_visuals(*self));
        }
        visuals
    }

    /// Whether the tile at column `x` of row `y` exists and can be walked
    /// on; out-of-bounds coordinates are simply not accessible.
    pub fn is_accessible(&self, x: u32, y: u32) -> (r: bool)
        ensures
            r == self.accessible_at(x as int, y as int),
    {
        let tile = grid_get(&self.tiles, y as usize, x as usize);
        match tile {
            Some(b) => b,
            None => false,
        }
    }
}

/// One visual per board tile, row-major: content 1 for accessible, 0 for
/// inaccessible, no identifier.
pub open spec fn board_visuals(b: Board) -> Seq<Visual> {
    Seq::new(
        b.rows() * b.cols(),
        |k: int|
            Visual {
                content: if b.cells()[k] {
                    1u32
                } else {
                    0u32
                },
                x: (k % b.cols() as int) as u32,
                y: (k / b.cols() as int) as u32,
                id: None,
            },
    )
}

/// A description yields at most one tile per character, and at most one line
/// break per character.
proof fn lemma_tiles_len(s: Seq<char>)
    ensures
        tiles_of(s).len() <= s.len(),
    decreases s.len(),
{
    if s.len() > 0 {
        lemma_tiles_len(s.drop_last());
    }
}

/// Line-break count and last-line length never exceed the description length.
proof fn lemma_counts_len(s: Seq<char>)
    ensures
        0 <= newline_count(s) <= s.len(),
        0 <= last_line_len(s) <= s.len(),
    decreases s.len(),
{
    if s.len() > 0 {
        lemma_counts_len(s.drop_last());
    }
}

} // verus!
