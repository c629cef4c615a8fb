//! Trusted interface to the dense two-dimensional array that stores a grid's
//! cell labels. The array's contents are modelled as a row-major sequence of
//! bytes together with its two dimensions; every method the library calls is
//! wrapped here with a contract over that model.

use vstd::prelude::*;

verus! {

#[verifier::external_type_specification]
#[verifier::external_body]
#[verifier::reject_recursive_types(T)]
pub struct ExArray2D<T>(array2d::Array2D<T>);

/// The labels held by the array, in row-major order.
pub uninterp spec fn grid_cells(a: array2d::Array2D<u8>) -> Seq<u8>;

/// The number of rows the array was built with.
pub uninterp spec fn grid_rows(a: array2d::Array2D<u8>) -> nat;

/// The number of columns the array was built with.
pub uninterp spec fn grid_cols(a: array2d::Array2D<u8>) -> nat;

/// Relies on array2d::Array2D::filled_with: a rows-by-columns array holding
/// `element` everywhere, stored in row-major order.
#[verifier::external_body]
pub fn a2d_filled(element: u8, num_rows: usize, num_columns: usize) -> (r: array2d::Array2D<u8>)
    requires
        num_rows * num_columns <= usize::MAX,
    ensures
        grid_rows(r) == num_rows,
        grid_cols(r) == num_columns,
        grid_cells(r) == Seq::new((num_rows * num_columns) as nat, |i: int| element),
{
    array2d::Array2D::filled_with(element, num_rows, num_columns)
}

/// Relies on array2d::Array2D::get: an in-bounds lookup returns the element
/// at row-major position `row * num_columns + column`.
#[verifier::external_body]
pub fn a2d_get(a: &array2d::Array2D<u8>, row: usize, column: usize) -> (r: u8)
    requires
        row < grid_rows(*a),
        column < grid_cols(*a),
    ensures
        r == grid_cells(*a)[row * grid_cols(*a) + column],
{
    *a.get(row, column).unwrap()
}

/// Relies on array2d::Array2D::set: an in-bounds write replaces the element
/// at row-major position `row * num_columns + column` and nothing else.
#[verifier::external_body]
pub fn a2d_set(a: &mut array2d::Array2D<u8>, row: usize, column: usize, element: u8)
    requires
        row < grid_rows(*old(a)),
        column < grid_cols(*old(a)),
    ensures
        grid_rows(*final(a)) == grid_rows(*old(a)),
        grid_cols(*final(a)) == grid_cols(*old(a)),
        grid_cells(*final(a)) == grid_cells(*old(a)).update(
            row * grid_cols(*old(a)) + column,
            element,
        ),
{
    let _ = a.set(row, column, element);
}

/// Relies on array2d::Array2D::num_rows, which returns the row count the
/// array was built with.
#[verifier::external_body]
pub fn a2d_num_rows(a: &array2d::Array2D<u8>) -> (r: usize)
    ensures
        r as nat == grid_rows(*a),
{
    a.num_rows()
}

/// Relies on array2d::Array2D::num_columns, which returns the column count
/// the array was built with.
#[verifier::external_body]
pub fn a2d_num_columns(a: &array2d::Array2D<u8>) -> (r: usize)
    ensures
        r as nat == grid_cols(*a),
{
    a.num_columns()
}

/// Relies on Array2D's derived Clone, which clones the backing vector and
/// copies both dimensions.
#[verifier::external_body]
pub fn a2d_clone(a: &array2d::Array2D<u8>) -> (r: array2d::Array2D<u8>)
    ensures
        grid_rows(r) == grid_rows(*a),
        grid_cols(r) == grid_cols(*a),
        grid_cells(r) == grid_cells(*a),
{
    a.clone()
}

} // verus!
