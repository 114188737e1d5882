//! Positions in a row-major grid and the arithmetic on them.

use vstd::prelude::*;

verus! {

/// A cell position: row first, then column.
#[derive(Clone, Copy, Debug, PartialEq, Eq, Structural)]
pub struct Point {
    pub line: usize,
    pub column: usize,
}

/// A foreground color.
#[derive(Clone, Copy, Debug, PartialEq, Eq, Structural)]
pub struct Rgb {
    pub r: u8,
    pub g: u8,
    pub b: u8,
}

/// Position of a point in scan order on a grid `width` cells wide.
pub open spec fn index_of(p: Point, width: nat) -> int {
    p.line * width + p.column
}

/// The point at scan position `i` on a grid `width` cells wide.
pub open spec fn point_at(i: nat, width: nat) -> Point
    recommends
        width > 0,
{
    Point { line: (i / width) as usize, column: (i % width) as usize }
}

/// `p` moved `n` cells back in scan order; the origin when that would leave the grid.
pub open spec fn retreat_spec(p: Point, width: nat, n: nat) -> Point {
    if index_of(p, width) >= n {
        point_at((index_of(p, width) - n) as nat, width)
    } else {
        Point { line: 0, column: 0 }
    }
}

/// Scan order on points: by row, then by column.
pub open spec fn point_le(a: Point, b: Point) -> bool {
    a.line < b.line || (a.line == b.line && a.column <= b.column)
}

impl Point {
    pub fn new(line: usize, column: usize) -> (r: Point)
        ensures
            r == (Point { line, column }),
    {
        Point { line, column }
    }

    /// Moves `n` cells back in scan order on a grid `width` cells wide, borrowing
    /// whole rows; stops at the origin.
    pub fn retreat(self, width: usize, n: usize) -> (r: Point)
        requires
            width > 0,
            self.column < width,
        ensures
            r == retreat_spec(self, width as nat, n as nat),
            r.column < width,
    {
        let rows = n / width;
        let cols = n % width;
        proof {
            lemma_retreat_split(self, width as nat, n as nat);
        }
        if self.column >= cols {
            if self.line >= rows {
                Point { line: self.line - rows, column: self.column - cols }
            } else {
                Point { line: 0, column: 0 }
            }
        } else if self.line > rows {
            Point { line: self.line - rows - 1, column: self.column + (width - cols) }
        } else {
            Point { line: 0, column: 0 }
        }
    }

    /// Scan-order comparison.
    pub fn le(self, other: Point) -> (r: bool)
        ensures
            r == point_le(self, other),
    {
        self.line < other.line || (self.line == other.line && self.column <= other.column)
    }
}

proof fn lemma_retreat_split(p: Point, width: nat, n: nat)
    requires
        width > 0,
        p.column < width,
    ensures
        ({
            let rows = n / width;
            let cols = n % width;
            &&& p.column >= cols && p.line >= rows ==> retreat_spec(p, width, n) == (Point {
                line: (p.line - rows) as usize,
                column: (p.column - cols) as usize,
            })
            &&& p.column >= cols && p.line < rows ==> retreat_spec(p, width, n) == (Point {
                line: 0,
                column: 0,
            })
            &&& p.column < cols && p.line > rows ==> retreat_spec(p, width, n) == (Point {
                line: (p.line - rows - 1) as usize,
                column: (p.column + width - cols) as usize,
            })
            &&& p.column < cols && p.line <= rows ==> retreat_spec(p, width, n) == (Point {
                line: 0,
                column: 0,
            })
        }),
{
    let rows = n / width;
    let cols = n % width;
    let i = index_of(p, width);
    assert(n == rows * width + cols) by (nonlinear_arith)
        requires
            width > 0,
            rows == n / width,
            cols == n % width,
    ;
    assert(cols < width) by (nonlinear_arith)
        requires
            width > 0,
            cols == n % width,
    ;
    if p.column >= cols && p.line >= rows {
        let q = (p.line - rows) * width + (p.column - cols);
        assert(i - n == q) by (nonlinear_arith)
            requires
                i == p.line * width + p.column,
                n == rows * width + cols,
                q == (p.line - rows) * width + (p.column - cols),
        ;
        assert(q >= 0) by (nonlinear_arith)
            requires
                p.line >= rows,
                p.column >= cols,
                q == (p.line - rows) * width + (p.column - cols),
        ;
        lemma_div_mod_parts(q as nat, width, (p.line - rows) as nat, (p.column - cols) as nat);
    } else if p.column >= cols {
        assert(i < n) by (nonlinear_arith)
            requires
                i == p.line * width + p.column,
                n == rows * width + cols,
                p.line < rows,
                p.column < width,
        ;
    } else if p.line > rows {
        let q = (p.line - rows - 1) * width + (p.column + width - cols);
        assert(i - n == q) by (nonlinear_arith)
            requires
                i == p.line * width + p.column,
                n == rows * width + cols,
                q == (p.line - rows - 1) * width + (p.column + width - cols),
        ;
        assert(q >= 0) by (nonlinear_arith)
            requires
                p.line > rows,
                cols < width,
                q == (p.line - rows - 1) * width + (p.column + width - cols),
        ;
        lemma_div_mod_parts(
            q as nat,
            width,
            (p.line - rows - 1) as nat,
            (p.column + width - cols) as nat,
        );
    } else {
        assert(i < n) by (nonlinear_arith)
            requires
                i == p.line * width + p.column,
                n == rows * width + cols,
                p.line <= rows,
                p.column < cols,
        ;
    }
}

proof fn lemma_div_mod_parts(q: nat, width: nat, a: nat, b: nat)
    requires
        width > 0,
        b < width,
        q == a * width + b,
    ensures
        q / width == a,
        q % width == b,
{
    vstd::arithmetic::div_mod::lemma_fundamental_div_mod_converse(
        q as int,
        width as int,
        a as int,
        b as int,
    );
}

} // verus!
