//! Shapes of the matrices and vectors of the linear-algebra tools: a matrix
//! is given by its rows, which must be non-empty and of one length; each
//! operation then needs its operands' shapes to fit together.
use vstd::prelude::*;

verus! {

pub open spec fn empty_matrix_message() -> Seq<char> {
    "Matrix must be non-empty"@
}

pub open spec fn ragged_matrix_message() -> Seq<char> {
    "Matrix must be rectangular"@
}

/// The rows and columns of a matrix whose rows have the lengths `rows`, or
/// why it is no matrix.
pub open spec fn shape_of(rows: Seq<usize>) -> Result<(int, int), Seq<char>> {
    if rows.len() == 0 || rows[0] == 0 {
        Err(empty_matrix_message())
    } else if exists|i: int| 0 <= i < rows.len() && #[trigger] rows[i] != rows[0] {
        Err(ragged_matrix_message())
    } else {
        Ok((rows.len() as int, rows[0] as int))
    }
}

pub open spec fn shape_view(r: Result<(usize, usize), String>) -> Result<(int, int), Seq<char>> {
    match r {
        Ok((a, b)) => Ok((a as int, b as int)),
        Err(e) => Err(e@),
    }
}

/// The rows and columns of a matrix given by the lengths of its rows.
pub fn matrix_shape(row_lengths: &Vec<usize>) -> (r: Result<(usize, usize), String>)
    ensures
        shape_view(r) == shape_of(row_lengths@),
{
    if row_lengths.len() == 0 || row_lengths[0] == 0 {
        return Err("Matrix must be non-empty".to_owned());
    }
    let cols = row_lengths[0];
    let mut i: usize = 0;
    while i < row_lengths.len()
        invariant
            i <= row_lengths@.len(),
            row_lengths@.len() > 0,
            cols == row_lengths@[0],
            cols != 0,
            forall|j: int| 0 <= j < i ==> row_lengths@[j] == cols,
        decreases row_lengths@.len() - i,
    {
        if row_lengths[i] != cols {
            assert(row_lengths@[i as int] != row_lengths@[0]);
            return Err("Matrix must be rectangular".to_owned());
        }
        i = i + 1;
    }
    Ok((row_lengths.len(), cols))
}

/// What the shape checks of an operation on two matrices answer: the first
/// matrix's error, the second's, or the verdict on the two shapes.
pub open spec fn pair_checked(
    a: Seq<usize>,
    b: Seq<usize>,
    fits: spec_fn((int, int), (int, int)) -> bool,
    message: Seq<char>,
    result: spec_fn((int, int), (int, int)) -> (int, int),
) -> Result<(int, int), Seq<char>> {
    match shape_of(a) {
        Err(e) => Err(e),
        Ok(sa) => match shape_of(b) {
            Err(e) => Err(e),
            Ok(sb) => if fits(sa, sb) {
                Ok(result(sa, sb))
            } else {
                Err(message)
            },
        },
    }
}

pub open spec fn addition_message() -> Seq<char> {
    "Matrix dimensions must match for addition"@
}

pub open spec fn multiplication_message() -> Seq<char> {
    "Matrix dimensions must be compatible for multiplication"@
}

/// The shape of a sum: both matrices must have the same shape.
pub open spec fn sum_shape(a: Seq<usize>, b: Seq<usize>) -> Result<(int, int), Seq<char>> {
    pair_checked(
        a,
        b,
        |sa: (int, int), sb: (int, int)| sa == sb,
        addition_message(),
        |sa: (int, int), sb: (int, int)| sa,
    )
}

/// The shape of a product: the columns of the first must match the rows of
/// the second; the product has the rows of the first and the columns of the
/// second.
pub open spec fn product_shape(a: Seq<usize>, b: Seq<usize>) -> Result<(int, int), Seq<char>> {
    pair_checked(
        a,
        b,
        |sa: (int, int), sb: (int, int)| sa.1 == sb.0,
        multiplication_message(),
        |sa: (int, int), sb: (int, int)| (sa.0, sb.1),
    )
}

/// Checks two matrices for addition; the shape of their sum.
pub fn addition_shape(a: &Vec<usize>, b: &Vec<usize>) -> (r: Result<(usize, usize), String>)
    ensures
        shape_view(r) == sum_shape(a@, b@),
{
    let sa = matrix_shape(a)?;
    let sb = matrix_shape(b)?;
    if sa.0 != sb.0 || sa.1 != sb.1 {
        return Err("Matrix dimensions must match for addition".to_owned());
    }
    Ok(sa)
}

/// Checks two matrices for multiplication; the shape of their product.
pub fn multiplication_shape(a: &Vec<usize>, b: &Vec<usize>) -> (r: Result<(usize, usize), String>)
    ensures
        shape_view(r) == product_shape(a@, b@),
{
    let sa = matrix_shape(a)?;
    let sb = matrix_shape(b)?;
    if sa.1 != sb.0 {
        return Err("Matrix dimensions must be compatible for multiplication".to_owned());
    }
    Ok((sa.0, sb.1))
}

pub open spec fn square_message() -> Seq<char> {
    "Matrix must be square to compute determinant"@
}

/// Checks a matrix for a determinant: it must be square; its order.
pub fn determinant_order(m: &Vec<usize>) -> (r: Result<usize, String>)
    ensures
        match shape_of(m@) {
            Err(e) => r matches Err(x) && x@ == e,
            Ok((rows, cols)) => if rows == cols {
                r == Ok::<usize, String>(rows as usize)
            } else {
                r matches Err(x) && x@ == square_message()
            },
        },
{
    let (rows, cols) = match matrix_shape(m) {
        Ok(s) => s,
        Err(e) => {
            return Err(e);
        },
    };
    if rows != cols {
        return Err("Matrix must be square to compute determinant".to_owned());
    }
    Ok(rows)
}

/// Checks two vectors for a dot product: their lengths must match.
pub fn dot_lengths(a: usize, b: usize) -> (r: Result<(), String>)
    ensures
        a == b ==> r is Ok,
        a != b ==> (r matches Err(x) && x@ == "Vector dimensions must match for dot product"@),
{
    if a != b {
        return Err("Vector dimensions must match for dot product".to_owned());
    }
    Ok(())
}

/// Checks two vectors for a cross product: both must have three components.
pub fn cross_lengths(a: usize, b: usize) -> (r: Result<(), String>)
    ensures
        a == 3 && b == 3 ==> r is Ok,
        !(a == 3 && b == 3) ==> (r matches Err(x) && x@
            == "Cross product is only defined for 3-dimensional vectors"@),
{
    if a != 3 || b != 3 {
        return Err("Cross product is only defined for 3-dimensional vectors".to_owned());
    }
    Ok(())
}

} // verus!
