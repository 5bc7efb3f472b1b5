use calculator_mcp_server::units::{
    arithmetic_plan, conversion_plan, lookup_unit, unit_from_lowercase, unit_quantity, QuantityKind,
    QuantityOp, Unit,
};

#[test]
fn data_units_keep_their_case() {
    assert_eq!(lookup_unit("B").unwrap(), Unit::Byte);
    assert_eq!(lookup_unit("b").unwrap(), Unit::Bit);
    assert_eq!(lookup_unit("KiB").unwrap(), Unit::Kibibyte);
    assert_eq!(lookup_unit(" KB ").unwrap(), Unit::Kilobyte);
    assert!(lookup_unit("kb").is_err());
    assert_eq!(lookup_unit("kN").unwrap(), Unit::Kilonewton);
    assert_eq!(lookup_unit("kn").unwrap(), Unit::Knot);
}

#[test]
fn other_units_ignore_case() {
    assert_eq!(lookup_unit("KM").unwrap(), Unit::Kilometer);
    assert_eq!(lookup_unit("Fahrenheit").unwrap(), Unit::Fahrenheit);
    assert_eq!(lookup_unit("m\u{b3}").unwrap(), Unit::CubicMeter);
    assert_eq!(lookup_unit("kWh").unwrap(), Unit::KilowattHour);
    assert_eq!(lookup_unit("Kilonewtons").unwrap(), Unit::Kilonewton);
    assert_eq!(unit_quantity(Unit::Gradian), QuantityKind::Angle);
    assert_eq!(QuantityKind::Pressure.name(), "pressure");
}

#[test]
fn months_and_years_are_refused() {
    assert_eq!(
        lookup_unit("Months").unwrap_err(),
        "Months and years are not fixed durations. Use date_add or date_diff instead."
    );
    assert!(lookup_unit("yr").is_err());
}

#[test]
fn unknown_units_list_the_supported_ones() {
    let e = lookup_unit(" furlong").unwrap_err();
    assert!(e.starts_with("Unknown unit: ' furlong'. Supported units: m, km, cm"));
    assert!(e.ends_with("N, kN, lbf, deg, rad, grad"));
}

#[test]
fn conversions_need_one_quantity() {
    assert_eq!(conversion_plan("km", "mi").unwrap(), (Unit::Kilometer, Unit::Mile));
    assert_eq!(
        conversion_plan("km", "kg").unwrap_err(),
        "Cannot convert from km (length) to kg (mass) \u{2014} different quantities"
    );
}

#[test]
fn arithmetic_checks_in_order() {
    let p = arithmetic_plan("km", "m", "add", Some("m")).unwrap();
    assert_eq!((p.left, p.right, p.op, p.result), (Unit::Kilometer, Unit::Meter, QuantityOp::Add, Unit::Meter));
    assert_eq!(p.result_name, "m");
    let p = arithmetic_plan("lb", "oz", "subtract", None).unwrap();
    assert_eq!(p.result, Unit::Pound);
    assert_eq!(p.result_name, "lb");
    assert_eq!(
        arithmetic_plan("km", "kg", "add", None).unwrap_err(),
        "Cannot add km and kg \u{2014} different quantities (length)"
    );
    assert!(arithmetic_plan("C", "F", "add", None)
        .unwrap_err()
        .starts_with("Quantity arithmetic is not supported for temperature"));
    assert_eq!(
        arithmetic_plan("m", "m", "multiply", None).unwrap_err(),
        "Unknown operation: multiply (expected 'add' or 'subtract')"
    );
    assert_eq!(
        arithmetic_plan("m", "cm", "add", Some("s")).unwrap_err(),
        "Result unit s (duration) does not match operand quantity (length)"
    );
}

#[test]
fn lower_case_names_after_folding() {
    assert_eq!(unit_from_lowercase("kilometres", "Kilometres").unwrap(), Unit::Kilometer);
    assert_eq!(unit_from_lowercase("psi", "PSI").unwrap(), Unit::Psi);
    assert_eq!(
        unit_from_lowercase("years", "Years").unwrap_err(),
        "Months and years are not fixed durations. Use date_add or date_diff instead."
    );
    let e = unit_from_lowercase("furlong", " Furlong").unwrap_err();
    assert!(e.starts_with("Unknown unit: ' Furlong'. Supported units: m, km,"));
}
