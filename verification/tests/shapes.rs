use calculator_mcp_server::shapes::{
    addition_shape, cross_lengths, determinant_order, dot_lengths, matrix_shape,
    multiplication_shape,
};

#[test]
fn matrices_must_be_rectangular_and_non_empty() {
    assert_eq!(matrix_shape(&vec![3, 3]).unwrap(), (2, 3));
    assert_eq!(matrix_shape(&vec![]).unwrap_err(), "Matrix must be non-empty");
    assert_eq!(matrix_shape(&vec![0, 0]).unwrap_err(), "Matrix must be non-empty");
    assert_eq!(matrix_shape(&vec![2, 1]).unwrap_err(), "Matrix must be rectangular");
}

#[test]
fn operand_shapes_must_fit() {
    assert_eq!(addition_shape(&vec![2, 2], &vec![2, 2]).unwrap(), (2, 2));
    assert_eq!(
        addition_shape(&vec![2, 2], &vec![2]).unwrap_err(),
        "Matrix dimensions must match for addition"
    );
    assert_eq!(multiplication_shape(&vec![3, 3], &vec![2, 2, 2]).unwrap(), (2, 2));
    assert_eq!(
        multiplication_shape(&vec![3, 3], &vec![2, 2]).unwrap_err(),
        "Matrix dimensions must be compatible for multiplication"
    );
    assert_eq!(
        multiplication_shape(&vec![1, 2], &vec![2, 2]).unwrap_err(),
        "Matrix must be rectangular"
    );
    assert_eq!(determinant_order(&vec![2, 2]).unwrap(), 2);
    assert_eq!(
        determinant_order(&vec![3, 3]).unwrap_err(),
        "Matrix must be square to compute determinant"
    );
    assert!(dot_lengths(3, 3).is_ok());
    assert_eq!(
        dot_lengths(2, 3).unwrap_err(),
        "Vector dimensions must match for dot product"
    );
    assert!(cross_lengths(3, 3).is_ok());
    assert_eq!(
        cross_lengths(2, 3).unwrap_err(),
        "Cross product is only defined for 3-dimensional vectors"
    );
}
