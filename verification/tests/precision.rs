use calculator_mcp_server::precision::{
    cf_step, default_round_mode, finish_fraction, format_mixed, sig_figs_precision, zero_notation,
    CfStep, Convergents,
};

#[test]
fn mixed_numbers() {
    assert_eq!(format_mixed(-4, 3), "-1 1/3");
    assert_eq!(format_mixed(3, 4), "3/4");
    assert_eq!(format_mixed(-1, 3), "-1/3");
    assert_eq!(format_mixed(6, 3), "2");
    assert_eq!(format_mixed(0, 1), "0");
}

fn advance(c: &Convergents, a: i64) -> Convergents {
    match cf_step(c, a, None, 1, false) {
        CfStep::Advance(n) => n,
        _ => panic!("expected the expansion to go on"),
    }
}

#[test]
fn convergents_of_three_quarters() {
    // 0.75 = [0; 1, 3]
    let c = advance(&Convergents::start(), 0);
    let c = advance(&c, 1);
    let c = advance(&c, 3);
    let (num, den, mixed, exact) = finish_fraction(&c, -1, true).unwrap();
    assert_eq!((num, den, mixed.as_str(), exact), (-3, 4, "-3/4", true));
}

#[test]
fn largest_denominator_settles_on_a_semiconvergent() {
    let c = advance(&Convergents::start(), 0);
    let c = advance(&c, 1);
    match cf_step(&c, 3, Some(3), 1, true) {
        CfStep::Settle { num, den, mixed } => {
            assert_eq!((num, den), (2, 3));
            assert_eq!(mixed, "2/3");
        }
        _ => panic!("expected a settled fraction"),
    }
    match cf_step(&c, 3, Some(1), 1, true) {
        CfStep::Settle { num, den, .. } => assert_eq!((num, den), (1, 1)),
        _ => panic!("expected a settled fraction"),
    }
}

fn settle(c: &Convergents, a: i64, max: i64, tail_below: bool) -> (i64, i64) {
    match cf_step(c, a, Some(max), 1, tail_below) {
        CfStep::Settle { num, den, .. } => (num, den),
        _ => panic!("expected a settled fraction"),
    }
}

#[test]
fn settles_on_the_closer_of_convergent_and_semiconvergent() {
    // 0.3 = [0; 3, 3]: with denominators up to 4, 1/3 beats 1/4
    let c = advance(&advance(&Convergents::start(), 0), 3);
    assert_eq!((c.h_prev1, c.k_prev1), (1, 3));
    assert_eq!(settle(&c, 3, 4, true), (1, 3));
    // 4/9 = [0; 2, 4]: with denominators up to 5, 2/5 (t = 2, half of 4)
    // beats 1/2 when the tail is small
    let c = advance(&advance(&Convergents::start(), 0), 2);
    assert_eq!(settle(&c, 4, 5, true), (2, 5));
    // 23/51 = [0; 2, 4, 1, 1, 2]: the tail is large, so 1/2 is closer than 2/5
    assert_eq!(settle(&c, 4, 5, false), (1, 2));
    // with t above half the quotient, the semiconvergent wins outright
    assert_eq!(settle(&c, 4, 7, false), (3, 7));
    // without room for a semiconvergent, the convergent stands
    assert_eq!(settle(&c, 4, 2, true), (1, 2));
}

#[test]
fn expansion_limits() {
    let big = Convergents { h_prev2: 1, h_prev1: i64::MAX / 2, k_prev2: 1, k_prev1: 5 };
    assert!(matches!(cf_step(&big, 3, None, 1, false), CfStep::Halt { inexact: true }));
    // a sum past i64::MAX stops the expansion too
    let edge = Convergents { h_prev2: 1, h_prev1: i64::MAX, k_prev2: 0, k_prev1: 1 };
    assert!(matches!(cf_step(&edge, 1, None, 1, false), CfStep::Halt { inexact: true }));
    let edge = Convergents { h_prev2: 1, h_prev1: 2, k_prev2: i64::MAX, k_prev1: 1 };
    assert!(matches!(cf_step(&edge, 1, Some(5), 1, false), CfStep::Halt { inexact: true }));
    assert!(matches!(
        cf_step(&Convergents::start(), 5, Some(0), 1, false),
        CfStep::Halt { inexact: false }
    ));
    assert_eq!(
        finish_fraction(&Convergents::start(), 1, true).unwrap_err(),
        "Failed to compute fraction (denominator is zero)"
    );
    assert_eq!(default_round_mode(), "half_up");
}

fn gcd(a: i64, b: i64) -> i64 {
    if b == 0 { a.abs() } else { gcd(b, a % b) }
}

#[test]
fn convergents_are_in_lowest_terms() {
    // quotients of a continued fraction, taken in one by one
    let quotients = [2, 1, 1, 2, 1, 6, 1, 1, 4, 1, 1, 8];
    let mut c = Convergents::start();
    for (i, &a) in quotients.iter().enumerate() {
        c = advance(&c, a);
        assert_eq!(gcd(c.h_prev1, c.k_prev1), 1, "after {} quotients", i + 1);
        let cross = c.h_prev1 * c.k_prev2 - c.h_prev2 * c.k_prev1;
        assert_eq!(cross.abs(), 1);
    }
    match cf_step(&c, 3, Some(c.k_prev1 + 1), -1, false) {
        CfStep::Settle { num, den, .. } => assert_eq!(gcd(num, den), 1),
        _ => panic!("expected a settled fraction"),
    }
}

#[test]
fn significant_figure_counts() {
    assert_eq!(sig_figs_precision(None).unwrap(), 6);
    assert_eq!(sig_figs_precision(Some(17)).unwrap(), 17);
    assert_eq!(sig_figs_precision(Some(0)).unwrap_err(), "sig_figs must be 1..=17, got 0");
    assert_eq!(sig_figs_precision(Some(-3)).unwrap_err(), "sig_figs must be 1..=17, got -3");
    assert_eq!(zero_notation(6), "0.00000e0");
    assert_eq!(zero_notation(1), "0.e0");
}
