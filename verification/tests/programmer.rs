use calculator_mcp_server::programmer::{
    base_convert, bitwise, default_bit_width, IntInput,
};

// --- base_convert ---

#[test]
fn test_base_convert_prefix_detection() {
    let r = base_convert("0xFF", 10, None).unwrap();
    assert_eq!(r.decimal, "255");
    assert_eq!(r.hex, "0xff");
    assert_eq!(r.octal, "0o377");
    assert_eq!(r.binary, "0b11111111");
    assert_eq!(r.result, "255");
}

#[test]
fn test_base_convert_explicit_from_base() {
    let r = base_convert("FF", 10, Some(16)).unwrap();
    assert_eq!(r.decimal, "255");
}

#[test]
fn test_base_convert_negative() {
    let r = base_convert("-0xFF", 10, None).unwrap();
    assert_eq!(r.decimal, "-255");
    assert_eq!(r.hex, "-0xff");
}

#[test]
fn test_base_convert_to_hex() {
    let r = base_convert("255", 16, None).unwrap();
    assert_eq!(r.result, "0xff");
}

#[test]
fn test_base_convert_invalid_digit() {
    assert!(base_convert("0xGG", 10, None).is_err());
}

#[test]
fn test_base_convert_invalid_base() {
    assert!(base_convert("10", 3, None).is_err());
}

// --- bitwise ---

#[test]
fn test_bitwise_and() {
    let r = bitwise("and", IntInput::I(0xFF), Some(IntInput::I(0x0F)), 8, false).unwrap();
    assert_eq!(r.unsigned_value, "15");
    assert_eq!(r.hex, "0x0f");
}

#[test]
fn test_bitwise_or() {
    let r = bitwise("or", IntInput::I(0xF0), Some(IntInput::I(0x0F)), 8, false).unwrap();
    assert_eq!(r.unsigned_value, "255");
    assert_eq!(r.hex, "0xff");
}

#[test]
fn test_bitwise_xor() {
    let r = bitwise("xor", IntInput::I(0xFF), Some(IntInput::I(0x0F)), 8, false).unwrap();
    assert_eq!(r.unsigned_value, "240");
    assert_eq!(r.hex, "0xf0");
}

#[test]
fn test_bitwise_not() {
    let r = bitwise("not", IntInput::I(0x0F), None, 8, false).unwrap();
    assert_eq!(r.unsigned_value, "240");
    assert_eq!(r.hex, "0xf0");
    assert_eq!(r.binary, "0b11110000");
}

#[test]
fn test_bitwise_signed_twos_complement() {
    // 0xFF as signed 8-bit = -1
    let r = bitwise("and", IntInput::I(0xFF), Some(IntInput::I(0xFF)), 8, true).unwrap();
    assert_eq!(r.value, "-1");
    assert_eq!(r.unsigned_value, "255");
}

#[test]
fn test_bitwise_shl() {
    let r = bitwise("shl", IntInput::I(0x0F), Some(IntInput::I(4)), 8, false).unwrap();
    assert_eq!(r.unsigned_value, "240");
    assert_eq!(r.hex, "0xf0");
}

#[test]
fn test_bitwise_shl_wrap() {
    // 0xFF << 4 in 8-bit = 0xF0 (upper bits dropped)
    let r = bitwise("shl", IntInput::I(0xFF), Some(IntInput::I(4)), 8, false).unwrap();
    assert_eq!(r.hex, "0xf0");
}

#[test]
fn test_bitwise_shr_unsigned() {
    let r = bitwise("shr", IntInput::I(0x80), Some(IntInput::I(4)), 8, false).unwrap();
    assert_eq!(r.unsigned_value, "8");
    assert_eq!(r.hex, "0x08");
}

#[test]
fn test_bitwise_shr_signed_arithmetic() {
    // 0x80 as signed 8-bit = -128; -128 >> 4 = -8 (arithmetic shift)
    let r = bitwise("shr", IntInput::I(0x80), Some(IntInput::I(4)), 8, true).unwrap();
    assert_eq!(r.value, "-8");
    assert_eq!(r.hex, "0xf8");
}

#[test]
fn test_bitwise_shift_out_of_range() {
    assert!(bitwise("shl", IntInput::I(1), Some(IntInput::I(8)), 8, false).is_err());
    assert!(bitwise("shr", IntInput::I(1), Some(IntInput::I(-1)), 8, false).is_err());
}

#[test]
fn test_bitwise_missing_b() {
    assert!(bitwise("and", IntInput::I(1), None, 8, false).is_err());
}

#[test]
fn test_bitwise_not_forbids_b() {
    assert!(bitwise("not", IntInput::I(1), Some(IntInput::I(2)), 8, false).is_err());
}

#[test]
fn test_bitwise_out_of_range() {
    // 256 is outside unsigned 8-bit range [0, 255]
    assert!(bitwise("and", IntInput::I(256), Some(IntInput::I(1)), 8, false).is_err());
    // -1 is negative but signed=false
    assert!(bitwise("and", IntInput::I(-1), Some(IntInput::I(1)), 8, false).is_err());
}

#[test]
fn test_bitwise_string_input() {
    let r = bitwise(
        "and",
        IntInput::S("255".to_string()),
        Some(IntInput::S("15".to_string())),
        8,
        false,
    )
    .unwrap();
    assert_eq!(r.unsigned_value, "15");
}

#[test]
fn test_bitwise_64bit() {
    let r = bitwise("not", IntInput::I(0), None, 64, false).unwrap();
    assert_eq!(r.value, "18446744073709551615");
    assert_eq!(r.hex, "0xffffffffffffffff");
}

// --- further cases ---

#[test]
fn converted_text_reads_back() {
    for text in [
        "-255",
        "0",
        "9223372036854775807",
        "-9223372036854775807",
        "-9223372036854775808",
        "4096",
    ] {
        let r = base_convert(text, 16, None).unwrap();
        for written in [&r.hex, &r.octal, &r.binary, &r.decimal] {
            let back = base_convert(written, 10, None).unwrap();
            assert_eq!(back.decimal, r.decimal);
        }
    }
}

#[test]
fn base_convert_prefixes_and_signs() {
    let r = base_convert("  +0B101 ", 8, None).unwrap();
    assert_eq!(r.decimal, "5");
    assert_eq!(r.result, "0o5");
    let r = base_convert("0o17", 2, Some(8)).unwrap();
    assert_eq!(r.result, "0b1111");
    let r = base_convert("-7", 2, None).unwrap();
    assert_eq!(r.binary, "-0b111");
}

#[test]
fn base_convert_error_messages() {
    assert_eq!(
        base_convert("10", 3, None).unwrap_err(),
        "to_base must be 2, 8, 10, or 16, got 3"
    );
    assert_eq!(
        base_convert("10", 10, Some(7)).unwrap_err(),
        "from_base must be 2, 8, 10, or 16, got 7"
    );
    assert_eq!(
        base_convert("0xGG", 10, None).unwrap_err(),
        "Failed to parse 'GG' as base 16: invalid digit found in string"
    );
    assert_eq!(
        base_convert("0x", 10, None).unwrap_err(),
        "Failed to parse '' as base 16: cannot parse integer from empty string"
    );
    assert_eq!(
        base_convert("99999999999999999999", 10, None).unwrap_err(),
        "Failed to parse '99999999999999999999' as base 10: number too large to fit in target type"
    );
}

#[test]
fn base_convert_reads_the_most_negative_value() {
    let r = base_convert("-9223372036854775808", 16, None).unwrap();
    assert_eq!(r.decimal, "-9223372036854775808");
    assert_eq!(r.hex, "-0x8000000000000000");
    assert_eq!(r.result, "-0x8000000000000000");
    let r = base_convert("-0x8000000000000000", 10, None).unwrap();
    assert_eq!(r.decimal, "-9223372036854775808");
    let r = base_convert("-0x7fffffffffffffff", 10, None).unwrap();
    assert_eq!(r.decimal, "-9223372036854775807");
    assert_eq!(
        base_convert("-9223372036854775809", 10, None).unwrap_err(),
        "Failed to parse '9223372036854775809' as base 10: number too small to fit in target type"
    );
    assert_eq!(
        base_convert("9223372036854775808", 10, None).unwrap_err(),
        "Failed to parse '9223372036854775808' as base 10: number too large to fit in target type"
    );
}

#[test]
fn base_convert_refuses_a_second_sign() {
    assert_eq!(
        base_convert("--5", 10, None).unwrap_err(),
        "Failed to parse '-5' as base 10: invalid digit found in string"
    );
    assert_eq!(
        base_convert("0x-ff", 10, None).unwrap_err(),
        "Failed to parse '-ff' as base 16: invalid digit found in string"
    );
    assert_eq!(
        base_convert("+-9223372036854775808", 16, None).unwrap_err(),
        "Failed to parse '-9223372036854775808' as base 10: invalid digit found in string"
    );
    assert_eq!(
        base_convert("-+5", 10, Some(10)).unwrap_err(),
        "Failed to parse '+5' as base 10: invalid digit found in string"
    );
}

#[test]
fn bitwise_error_messages() {
    let e = bitwise("and", IntInput::I(1), Some(IntInput::I(1)), 12, false).unwrap_err();
    assert_eq!(e, "bit_width must be 8, 16, 32, or 64, got 12");
    let e = bitwise("nand", IntInput::I(1), Some(IntInput::I(1)), 8, false).unwrap_err();
    assert_eq!(e, "Unknown operation: nand (expected and, or, xor, not, shl, or shr)");
    let e = bitwise("xor", IntInput::I(1), None, 8, false).unwrap_err();
    assert_eq!(e, "Operation 'xor' requires a second operand 'b'");
    let e = bitwise("not", IntInput::I(1), Some(IntInput::I(2)), 8, false).unwrap_err();
    assert_eq!(e, "Operation 'not' does not accept a second operand 'b'");
    let e = bitwise("and", IntInput::S("12a".to_string()), Some(IntInput::I(2)), 8, false)
        .unwrap_err();
    assert_eq!(e, "Cannot parse '12a' as integer");
    let e = bitwise("and", IntInput::I(-1), Some(IntInput::I(1)), 8, false).unwrap_err();
    assert_eq!(
        e,
        "Value -1 is negative but signed=false (unsigned 8-bit range is [0, 255])"
    );
    let e = bitwise("and", IntInput::I(256), Some(IntInput::I(1)), 8, false).unwrap_err();
    assert_eq!(e, "Value 256 is outside unsigned 8-bit range [0, 255]");
    let e = bitwise("shl", IntInput::I(1), Some(IntInput::I(8)), 8, false).unwrap_err();
    assert_eq!(e, "Shift count 8 is out of range [0, 8)");
}

#[test]
fn inverting_twice_gives_the_operand() {
    for w in [8, 16, 32, 64] {
        let once = bitwise("not", IntInput::I(0x5a), None, w, false).unwrap();
        let twice = bitwise("not", IntInput::S(once.unsigned_value.clone()), None, w, false);
        match twice {
            Ok(r) => assert_eq!(r.unsigned_value, "90"),
            // the 64-bit complement of 0x5a does not fit an i64 operand
            Err(e) => {
                assert_eq!(w, 64);
                assert_eq!(e, "Cannot parse '18446744073709551525' as integer");
            }
        }
    }
}

#[test]
fn results_stay_within_the_width() {
    let r = bitwise("shl", IntInput::I(0xff), Some(IntInput::I(15)), 16, false).unwrap();
    assert_eq!(r.unsigned_value, "32768");
    assert_eq!(r.hex, "0x8000");
    let r = bitwise("or", IntInput::I(-1), Some(IntInput::I(0)), 32, true).unwrap();
    assert_eq!(r.value, "-1");
    assert_eq!(r.unsigned_value, "4294967295");
    assert_eq!(r.octal, "0o37777777777");
    assert_eq!(r.binary.len(), 2 + 32);
}

#[test]
fn signed_shift_right_keeps_the_sign() {
    let r = bitwise("shr", IntInput::I(-100), Some(IntInput::I(3)), 16, true).unwrap();
    assert_eq!(r.value, "-13");
    assert_eq!(r.hex, "0xfff3");
}

#[test]
fn integer_inputs_and_default_width() {
    assert_eq!(IntInput::S(" -42 ".to_string()).parse().unwrap(), -42);
    assert_eq!(
        IntInput::S("4.5".to_string()).parse().unwrap_err(),
        "Cannot parse '4.5' as integer"
    );
    assert_eq!(IntInput::I(7).parse().unwrap(), 7);
    assert_eq!(default_bit_width(), 64);
}
