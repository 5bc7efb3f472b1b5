use calculator_mcp_server::expression::{
    clean_mathhook_display, equation_expression, factorial_u64, integer_sqrt, normalize_solution,
    prepare_expression, to_power_notation,
};

#[test]
fn evaluator_input_rewrites() {
    assert_eq!(prepare_expression("log(x**2) + mean([1,2,3])"), "_pylog(x^2) + mean(1,2,3)");
    assert_eq!(prepare_expression("2***3"), "2^*3");
    assert_eq!(prepare_expression("log10(100)"), "log10(100)");
    assert_eq!(to_power_notation("x**2 + y**3"), "x^2 + y^3");
}

#[test]
fn equations_become_differences() {
    assert_eq!(
        equation_expression("x**2 - 5*x + 6 = 0").unwrap(),
        "(x^2 - 5*x + 6) - (0)"
    );
    assert_eq!(
        equation_expression("x + 1").unwrap_err(),
        "Equation must contain an '=' sign"
    );
    assert!(equation_expression("x = 1 = 2").is_err());
}

#[test]
fn negative_zero_solutions_are_zero() {
    assert_eq!(normalize_solution("-0".to_string()), "0");
    assert_eq!(normalize_solution("-0.0".to_string()), "0");
    assert_eq!(normalize_solution("-0.5".to_string()), "-0.5");
}

#[test]
fn integer_wrappers_are_removed() {
    assert_eq!(
        clean_mathhook_display("Integer(1) + x^Integer(2) + Integer(2) * x"),
        "1 + x^2 + 2 * x"
    );
    assert_eq!(clean_mathhook_display("Integer(3"), "Integer(3");
    assert_eq!(clean_mathhook_display("x"), "x");
}

#[test]
fn integer_helpers() {
    assert_eq!(factorial_u64(0), 1);
    assert_eq!(factorial_u64(5), 120);
    assert_eq!(factorial_u64(20), 2432902008176640000);
    assert_eq!(integer_sqrt(0), 0);
    assert_eq!(integer_sqrt(17), 4);
    assert_eq!(integer_sqrt(1 << 32), 1 << 16);
    assert_eq!(integer_sqrt(1 << 40), 1 << 20);
    assert_eq!(integer_sqrt(u64::MAX), 4294967295);
    assert_eq!(integer_sqrt(24), 4);
    assert_eq!(integer_sqrt(25), 5);
}
