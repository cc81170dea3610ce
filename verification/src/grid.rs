//! The two-dimensional cell grid of a layer.

use vstd::prelude::*;
use crate::error::DomainError;

verus! {

/// A grid of cells, `rows` high and `cols` wide, stored row by row.
///
/// The cells are kept in an `ndarray` array, which the verifier does not
/// look into: what it knows of a grid is [`grid_shape`] and [`grid_cells`],
/// and of those what the three functions below that touch the array say.
#[verifier::external_body]
#[derive(Debug, PartialEq, Eq)]
pub struct Grid {
    array: ndarray::Array2<u32>,
}

/// The error of `from_shape_vec`, handed through without a look inside.
#[verifier::external_type_specification]
#[verifier::external_body]
pub struct ExShapeError(ndarray::ShapeError);

/// The number of rows and of columns of a grid, in that order.
pub uninterp spec fn grid_shape(g: Grid) -> (nat, nat);

/// The cells of a grid in row-major order.
pub uninterp spec fn grid_cells(g: Grid) -> Seq<u32>;

/// What a grid is: its shape and its cells, row by row.
pub struct GridView {
    pub rows: nat,
    pub cols: nat,
    pub cells: Seq<u32>,
}

impl GridView {
    /// A grid holds exactly `rows * cols` cells, and its shape can be
    /// addressed (see [`shape_fits`]).
    pub open spec fn wf(self) -> bool {
        shape_matches(self.rows, self.cols, self.cells.len())
    }
}

/// The product of the sides of a shape, a side of zero counted as one.
pub open spec fn nonzero_extent(rows: nat, cols: nat) -> nat {
    (if rows == 0 { 1 } else { rows }) * (if cols == 0 { 1 } else { cols })
}

/// Whether an array of this shape can be addressed: the product of its
/// nonzero sides must not exceed `isize::MAX`.
pub open spec fn shape_fits(rows: nat, cols: nat) -> bool {
    nonzero_extent(rows, cols) <= isize::MAX
}

/// Whether `count` cells fill a grid of this shape.
pub open spec fn shape_matches(rows: nat, cols: nat, count: nat) -> bool {
    count == rows * cols && shape_fits(rows, cols)
}

/// `ArrayBase::from_shape_vec` with a plain `(rows, cols)` shape: succeeds
/// exactly when the product of the nonzero sides stays within `isize::MAX`
/// and the vector holds `rows * cols` elements, and then keeps the elements
/// in row-major order.
#[verifier::external_body]
fn array_from_shape_vec(rows: usize, cols: usize, cells: Vec<u32>) -> (r: Result<
    Grid,
    ndarray::ShapeError,
>)
    ensures
        r is Ok <==> shape_matches(rows as nat, cols as nat, cells@.len()),
        r matches Ok(g) ==> grid_shape(g) == (rows as nat, cols as nat) && grid_cells(g)
            == cells@,
{
    match ndarray::Array2::from_shape_vec((rows, cols), cells) {
        Ok(array) => Ok(Grid { array }),
        Err(e) => Err(e),
    }
}

/// `ArrayBase::dim` of a two-dimensional array: rows, then columns. An
/// array never has a shape that `from_shape_vec` would refuse: the product
/// of its nonzero sides stays within `isize::MAX`.
#[verifier::external_body]
fn array_dim(g: &Grid) -> (d: (usize, usize))
    ensures
        grid_shape(*g) == (d.0 as nat, d.1 as nat),
        shape_fits(d.0 as nat, d.1 as nat),
{
    g.array.dim()
}

/// `ArrayBase::iter`, collected: the elements in row-major order, as many
/// as the shape has places.
#[verifier::external_body]
fn array_elements(g: &Grid) -> (cells: Vec<u32>)
    ensures
        cells@ == grid_cells(*g),
        cells@.len() == grid_shape(*g).0 * grid_shape(*g).1,
{
    g.array.iter().copied().collect()
}

impl View for Grid {
    type V = GridView;

    open spec fn view(&self) -> GridView {
        GridView { rows: grid_shape(*self).0, cols: grid_shape(*self).1, cells: grid_cells(*self) }
    }
}

impl Grid {
    /// Lays `cells` out as a grid of `rows` rows and `cols` columns.
    /// Fails with `ShapeMismatch` unless the cells fill that shape exactly.
    pub fn from_shape_vec(rows: usize, cols: usize, cells: Vec<u32>) -> (r: Result<
        Grid,
        DomainError,
    >)
        ensures
            r is Ok <==> shape_matches(rows as nat, cols as nat, cells@.len()),
            r matches Ok(g) ==> g@ == (GridView {
                rows: rows as nat,
                cols: cols as nat,
                cells: cells@,
            }),
            r matches Err(e) ==> e == DomainError::ShapeMismatch,
    {
        match array_from_shape_vec(rows, cols, cells) {
            Ok(g) => Ok(g),
            Err(_) => Err(DomainError::ShapeMismatch),
        }
    }

    /// The number of rows.
    pub fn rows(&self) -> (n: usize)
        ensures
            n == self@.rows,
            shape_fits(self@.rows, self@.cols),
    {
        array_dim(self).0
    }

    /// The number of columns.
    pub fn cols(&self) -> (n: usize)
        ensures
            n == self@.cols,
            shape_fits(self@.rows, self@.cols),
    {
        array_dim(self).1
    }

    /// The cells, row by row: `rows * cols` of them.
    pub fn to_vec(&self) -> (cells: Vec<u32>)
        ensures
            cells@ == self@.cells,
            cells@.len() == self@.rows * self@.cols,
    {
        array_elements(self)
    }

    /// Whether two grids have the same number of rows and of columns.
    pub fn same_shape(&self, other: &Grid) -> (same: bool)
        ensures
            same == (self@.rows == other@.rows && self@.cols == other@.cols),
    {
        let a = array_dim(self);
        let b = array_dim(other);
        a.0 == b.0 && a.1 == b.1
    }
}

} // verus!
