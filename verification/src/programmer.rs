//! Programmer / integer tools: base conversion (sign-magnitude text in bases
//! 2, 8, 10 and 16) and bitwise operations on 8-, 16-, 32- and 64-bit values
//! with optional two's-complement interpretation.
use vstd::prelude::*;
use crate::text::{
    IntErrorKind, all_digits, append_chars, chars_of, digit_value, digits_of, digits_vec,
    from_str_radix_i64, from_str_radix_spec, has_prefix, lemma_digits_roundtrip, lemma_scan_value,
    scan_digits, scan_digits_i64,
    is_white_space, lead_ws, trail_ws,
    same_chars, signed_decimal, signed_decimal_vec, starts_with, string_from_chars, sub_chars,
    trim_chars, trimmed, zero_pad, zero_padded,
};

verus! {

// ===== Requests and results =====

/// A base-conversion request: the numeral, the target base, and the source
/// base when it is not to be detected from a `0x`/`0o`/`0b` prefix.
#[derive(Debug)]
pub struct BaseConvertRequest {
    pub value: String,
    pub to_base: i64,
    pub from_base: Option<i64>,
}

/// An integer given either as text (needed beyond 2^53) or as a number.
#[derive(Debug)]
pub enum IntInput {
    S(String),
    I(i64),
}

/// A bitwise request: the operation, its operands, the bit width and whether
/// values are read as two's complement.
#[derive(Debug)]
pub struct BitwiseRequest {
    pub operation: String,
    pub a: IntInput,
    pub b: Option<IntInput>,
    pub bit_width: i64,
    pub signed: bool,
}

/// The width used when a bitwise request names none.
pub fn default_bit_width() -> (w: i64)
    ensures
        w == 64,
{
    64
}

/// A converted value in all four bases, and in the requested one.
#[derive(Debug)]
pub struct BaseConvertResult {
    pub decimal: String,
    pub hex: String,
    pub octal: String,
    pub binary: String,
    pub result: String,
}

/// The result of a bitwise operation: its value (signed when asked), its raw
/// masked value, and the full bit pattern in hex, octal and binary.
#[derive(Debug)]
pub struct BitwiseResult {
    pub value: String,
    pub unsigned_value: String,
    pub hex: String,
    pub octal: String,
    pub binary: String,
}

/// Why a base conversion or bitwise operation was refused.
#[derive(Debug)]
pub enum ProgrammerError {
    InvalidToBase(i64),
    InvalidFromBase(i64),
    InvalidDigits { digits: String, base: i64, kind: IntErrorKind },
    InvalidBitWidth(i64),
    UnknownOperation(String),
    MissingOperand(String),
    UnexpectedOperand,
    NotAnInteger(String),
    NegativeUnsigned { value: i64, bit_width: i64, max: u64 },
    OutOfUnsignedRange { value: i64, bit_width: i64, max: u64 },
    ShiftOutOfRange { count: i64, bit_width: i64 },
}

pub open spec fn int_error_text(k: IntErrorKind) -> Seq<char> {
    match k {
        IntErrorKind::Empty => "cannot parse integer from empty string"@,
        IntErrorKind::InvalidDigit => "invalid digit found in string"@,
        IntErrorKind::PosOverflow => "number too large to fit in target type"@,
        IntErrorKind::NegOverflow => "number too small to fit in target type"@,
    }
}

/// The message that explains an error.
pub open spec fn error_text(e: ProgrammerError) -> Seq<char> {
    match e {
        ProgrammerError::InvalidToBase(b) => "to_base must be 2, 8, 10, or 16, got "@
            + signed_decimal(b as int),
        ProgrammerError::InvalidFromBase(b) => "from_base must be 2, 8, 10, or 16, got "@
            + signed_decimal(b as int),
        ProgrammerError::InvalidDigits { digits, base, kind } => "Failed to parse '"@ + digits@
            + "' as base "@ + signed_decimal(base as int) + ": "@ + int_error_text(kind),
        ProgrammerError::InvalidBitWidth(w) => "bit_width must be 8, 16, 32, or 64, got "@
            + signed_decimal(w as int),
        ProgrammerError::UnknownOperation(op) => "Unknown operation: "@ + op@
            + " (expected and, or, xor, not, shl, or shr)"@,
        ProgrammerError::MissingOperand(op) => "Operation '"@ + op@
            + "' requires a second operand 'b'"@,
        ProgrammerError::UnexpectedOperand => "Operation 'not' does not accept a second operand 'b'"@,
        ProgrammerError::NotAnInteger(t) => "Cannot parse '"@ + t@ + "' as integer"@,
        ProgrammerError::NegativeUnsigned { value, bit_width, max } => "Value "@ + signed_decimal(
            value as int,
        ) + " is negative but signed=false (unsigned "@ + signed_decimal(bit_width as int)
            + "-bit range is [0, "@ + digits_of(max as nat, 10) + "])"@,
        ProgrammerError::OutOfUnsignedRange { value, bit_width, max } => "Value "@
            + signed_decimal(value as int) + " is outside unsigned "@ + signed_decimal(
            bit_width as int,
        ) + "-bit range [0, "@ + digits_of(max as nat, 10) + "]"@,
        ProgrammerError::ShiftOutOfRange { count, bit_width } => "Shift count "@ + signed_decimal(
            count as int,
        ) + " is out of range [0, "@ + signed_decimal(bit_width as int) + ")"@,
    }
}

fn push_text(v: &mut Vec<char>, s: &str)
    ensures
        final(v)@ == old(v)@ + s@,
{
    let w = chars_of(s);
    append_chars(v, &w);
}

fn push_decimal(v: &mut Vec<char>, n: i64)
    ensures
        final(v)@ == old(v)@ + signed_decimal(n as int),
{
    let w = signed_decimal_vec(n);
    append_chars(v, &w);
}

fn push_unsigned(v: &mut Vec<char>, n: u64)
    ensures
        final(v)@ == old(v)@ + digits_of(n as nat, 10),
{
    let w = digits_vec(n, 10);
    append_chars(v, &w);
}

impl ProgrammerError {
    /// The message that explains the error.
    pub fn message(&self) -> (r: String)
        ensures
            r@ == error_text(*self),
    {
        let mut v: Vec<char> = Vec::new();
        match self {
            ProgrammerError::InvalidToBase(b) => {
                push_text(&mut v, "to_base must be 2, 8, 10, or 16, got ");
                push_decimal(&mut v, *b);
            },
            ProgrammerError::InvalidFromBase(b) => {
                push_text(&mut v, "from_base must be 2, 8, 10, or 16, got ");
                push_decimal(&mut v, *b);
            },
            ProgrammerError::InvalidDigits { digits, base, kind } => {
                push_text(&mut v, "Failed to parse '");
                push_text(&mut v, digits.as_str());
                push_text(&mut v, "' as base ");
                push_decimal(&mut v, *base);
                push_text(&mut v, ": ");
                match kind {
                    IntErrorKind::Empty => push_text(&mut v, "cannot parse integer from empty string"),
                    IntErrorKind::InvalidDigit => push_text(&mut v, "invalid digit found in string"),
                    IntErrorKind::PosOverflow => push_text(&mut v, "number too large to fit in target type"),
                    IntErrorKind::NegOverflow => push_text(&mut v, "number too small to fit in target type"),
                }
            },
            ProgrammerError::InvalidBitWidth(w) => {
                push_text(&mut v, "bit_width must be 8, 16, 32, or 64, got ");
                push_decimal(&mut v, *w);
            },
            ProgrammerError::UnknownOperation(op) => {
                push_text(&mut v, "Unknown operation: ");
                push_text(&mut v, op.as_str());
                push_text(&mut v, " (expected and, or, xor, not, shl, or shr)");
            },
            ProgrammerError::MissingOperand(op) => {
                push_text(&mut v, "Operation '");
                push_text(&mut v, op.as_str());
                push_text(&mut v, "' requires a second operand 'b'");
            },
            ProgrammerError::UnexpectedOperand => {
                push_text(&mut v, "Operation 'not' does not accept a second operand 'b'");
            },
            ProgrammerError::NotAnInteger(t) => {
                push_text(&mut v, "Cannot parse '");
                push_text(&mut v, t.as_str());
                push_text(&mut v, "' as integer");
            },
            ProgrammerError::NegativeUnsigned { value, bit_width, max } => {
                push_text(&mut v, "Value ");
                push_decimal(&mut v, *value);
                push_text(&mut v, " is negative but signed=false (unsigned ");
                push_decimal(&mut v, *bit_width);
                push_text(&mut v, "-bit range is [0, ");
                push_unsigned(&mut v, *max);
                push_text(&mut v, "])");
            },
            ProgrammerError::OutOfUnsignedRange { value, bit_width, max } => {
                push_text(&mut v, "Value ");
                push_decimal(&mut v, *value);
                push_text(&mut v, " is outside unsigned ");
                push_decimal(&mut v, *bit_width);
                push_text(&mut v, "-bit range [0, ");
                push_unsigned(&mut v, *max);
                push_text(&mut v, "]");
            },
            ProgrammerError::ShiftOutOfRange { count, bit_width } => {
                push_text(&mut v, "Shift count ");
                push_decimal(&mut v, *count);
                push_text(&mut v, " is out of range [0, ");
                push_decimal(&mut v, *bit_width);
                push_text(&mut v, ")");
            },
        }
        assert(v@ =~= error_text(*self));
        string_from_chars(&v)
    }
}

// ===== Integer inputs =====

/// The value of an integer input: text is trimmed and read as a decimal `i64`.
pub open spec fn int_input_value(x: &IntInput) -> Option<int> {
    match x {
        IntInput::S(s) => match from_str_radix_spec(trimmed(s@), 10) {
            Ok(v) => Some(v),
            Err(_) => None,
        },
        IntInput::I(n) => Some(*n as int),
    }
}

impl IntInput {
    /// Reads the integer; text (trimmed) that is not a decimal `i64` is
    /// refused with `Cannot parse '<text>' as integer`.
    pub fn parse(&self) -> (r: Result<i64, String>)
        ensures
            match int_input_value(self) {
                Some(v) => r == Ok::<i64, String>(v as i64),
                None => r matches Err(m) && m@ == "Cannot parse '"@ + input_text(self)
                    + "' as integer"@,
            },
    {
        match self.read() {
            Ok(v) => Ok(v),
            Err(e) => Err(e.message()),
        }
    }

    /// Reads the integer, or says why it cannot.
    fn read(&self) -> (r: Result<i64, ProgrammerError>)
        ensures
            match int_input_value(self) {
                Some(v) => r == Ok::<i64, ProgrammerError>(v as i64),
                None => r matches Err(ProgrammerError::NotAnInteger(t)) && (
                self matches IntInput::S(s) && t@ == s@),
            },
    {
        match self {
            IntInput::S(s) => {
                let cs = chars_of(s.as_str());
                let t = trim_chars(&cs);
                match from_str_radix_i64(&t, 10) {
                    Ok(v) => Ok(v),
                    Err(_) => Err(ProgrammerError::NotAnInteger(s.clone())),
                }
            },
            IntInput::I(n) => Ok(*n),
        }
    }
}

// ===== Widths, masks and two's complement =====

pub open spec fn valid_width(w: int) -> bool {
    w == 8 || w == 16 || w == 32 || w == 64
}

/// 2^w - 1: all `w` low bits set.
pub open spec fn width_mask(w: int) -> int {
    if w == 8 {
        0xff
    } else if w == 16 {
        0xffff
    } else if w == 32 {
        0xffff_ffff
    } else {
        0xffff_ffff_ffff_ffff
    }
}

fn mask_for_width(bit_width: i64) -> (m: u64)
    requires
        valid_width(bit_width as int),
    ensures
        m as int == width_mask(bit_width as int),
{
    if bit_width == 8 {
        0xff
    } else if bit_width == 16 {
        0xffff
    } else if bit_width == 32 {
        0xffff_ffff
    } else {
        0xffff_ffff_ffff_ffff
    }
}

/// The two's-complement reading of the `w`-bit pattern `v`.
pub open spec fn signed_of(v: int, w: int) -> int {
    if v > width_mask(w) / 2 {
        v - (width_mask(w) + 1)
    } else {
        v
    }
}

fn to_signed(val: u64, bit_width: i64) -> (r: i64)
    requires
        valid_width(bit_width as int),
        val as int <= width_mask(bit_width as int),
    ensures
        r as int == signed_of(val as int, bit_width as int),
{
    let mask = mask_for_width(bit_width);
    if val > mask / 2 {
        ((val as i128) - (mask as i128) - 1) as i64
    } else {
        val as i64
    }
}

/// Masking the two's-complement reading of a pattern gives the pattern back,
/// and the reading lies in the signed range of the width.
pub proof fn lemma_signed_of_roundtrip(v: int, w: int)
    requires
        valid_width(w),
        0 <= v <= width_mask(w),
    ensures
        signed_of(v, w) % (width_mask(w) + 1) == v,
        -(width_mask(w) + 1) / 2 <= signed_of(v, w) < (width_mask(w) + 1) / 2,
{
    let m = width_mask(w) + 1;
    if v > width_mask(w) / 2 {
        assert((v - m) % m == v) by (nonlinear_arith)
            requires
                0 <= v < m,
                m > 0,
        ;
    } else {
        assert(v % m == v) by (nonlinear_arith)
            requires
                0 <= v < m,
        ;
    }
}

/// Whether a value is acceptable as a `w`-bit operand: any `i64` when signed,
/// else `0..=2^w - 1`.
pub open spec fn range_failure(v: int, w: int, signed: bool) -> Option<bool> {
    if signed {
        None
    } else if v < 0 {
        Some(true)
    } else if w < 64 && v > width_mask(w) {
        Some(false)
    } else {
        None
    }
}

/// The error for a value out of the unsigned range (`Some(true)`: negative).
pub open spec fn range_error_matches(e: ProgrammerError, v: int, w: int, negative: bool) -> bool {
    if negative {
        e == ProgrammerError::NegativeUnsigned {
            value: v as i64,
            bit_width: w as i64,
            max: width_mask(w) as u64,
        }
    } else {
        e == ProgrammerError::OutOfUnsignedRange {
            value: v as i64,
            bit_width: w as i64,
            max: width_mask(w) as u64,
        }
    }
}

fn validate_range(value: i64, bit_width: i64, signed: bool) -> (r: Result<(), ProgrammerError>)
    requires
        valid_width(bit_width as int),
    ensures
        match range_failure(value as int, bit_width as int, signed) {
            None => r is Ok,
            Some(neg) => r matches Err(e) && range_error_matches(
                e,
                value as int,
                bit_width as int,
                neg,
            ),
        },
{
    if signed {
        return Ok(());
    }
    if value < 0 {
        return Err(
            ProgrammerError::NegativeUnsigned {
                value,
                bit_width,
                max: mask_for_width(bit_width),
            },
        );
    }
    if bit_width < 64 {
        let max = mask_for_width(bit_width);
        if value as u64 > max {
            return Err(ProgrammerError::OutOfUnsignedRange { value, bit_width, max });
        }
    }
    Ok(())
}

// ===== Signs and base prefixes =====

/// A leading `-` or `+` (`-1`/`1`) and what follows it.
pub open spec fn sign_part(s: Seq<char>) -> (int, Seq<char>) {
    if s.len() > 0 && s[0] == '-' {
        (-1, s.drop_first())
    } else if s.len() > 0 && s[0] == '+' {
        (1, s.drop_first())
    } else {
        (1, s)
    }
}

/// Splits off a leading sign; returns the sign and where the rest begins.
fn extract_sign(s: &Vec<char>) -> (r: (i64, usize))
    ensures
        r.1 <= s@.len(),
        r.0 as int == sign_part(s@).0,
        s@.subrange(r.1 as int, s@.len() as int) == sign_part(s@).1,
{
    if s.len() > 0 && s[0] == '-' {
        assert(s@.subrange(1, s@.len() as int) =~= s@.drop_first());
        (-1, 1)
    } else if s.len() > 0 && s[0] == '+' {
        assert(s@.subrange(1, s@.len() as int) =~= s@.drop_first());
        (1, 1)
    } else {
        assert(s@.subrange(0, s@.len() as int) =~= s@);
        (1, 0)
    }
}

pub open spec fn lower_prefix(b: int) -> Seq<char> {
    if b == 16 {
        seq!['0', 'x']
    } else if b == 8 {
        seq!['0', 'o']
    } else {
        seq!['0', 'b']
    }
}

pub open spec fn upper_prefix(b: int) -> Seq<char> {
    if b == 16 {
        seq!['0', 'X']
    } else if b == 8 {
        seq!['0', 'O']
    } else {
        seq!['0', 'B']
    }
}

/// `s` without the `0x`/`0X` (base 16), `0o`/`0O` (8) or `0b`/`0B` (2) prefix.
pub open spec fn strip_prefix_spec(s: Seq<char>, b: int) -> Seq<char> {
    if (b == 16 || b == 8 || b == 2) && (has_prefix(s, lower_prefix(b)) || has_prefix(
        s,
        upper_prefix(b),
    )) {
        s.subrange(2, s.len() as int)
    } else {
        s
    }
}

fn prefix_chars(b: i64, upper: bool) -> (p: Vec<char>)
    requires
        b == 16 || b == 8 || b == 2,
    ensures
        p@ == if upper {
            upper_prefix(b as int)
        } else {
            lower_prefix(b as int)
        },
{
    let c = if b == 16 {
        if upper {
            'X'
        } else {
            'x'
        }
    } else if b == 8 {
        if upper {
            'O'
        } else {
            'o'
        }
    } else {
        if upper {
            'B'
        } else {
            'b'
        }
    };
    let p = vec!['0', c];
    assert(p@ =~= if upper {
        upper_prefix(b as int)
    } else {
        lower_prefix(b as int)
    });
    p
}

fn has_base_prefix(s: &Vec<char>, b: i64) -> (r: bool)
    requires
        b == 16 || b == 8 || b == 2,
    ensures
        r == (has_prefix(s@, lower_prefix(b as int)) || has_prefix(s@, upper_prefix(b as int))),
{
    let lo = prefix_chars(b, false);
    let up = prefix_chars(b, true);
    starts_with(s, &lo) || starts_with(s, &up)
}

/// Drops the prefix that belongs to `base`, if present.
fn strip_base_prefix(s: &Vec<char>, base: i64) -> (r: Vec<char>)
    ensures
        r@ == strip_prefix_spec(s@, base as int),
{
    if (base == 16 || base == 8 || base == 2) && has_base_prefix(s, base) {
        sub_chars(s, 2, s.len())
    } else {
        sub_chars(s, 0, s.len())
    }
}

/// The base announced by a prefix (10 when there is none) and the digits after it.
pub open spec fn detect_base(s: Seq<char>) -> (int, Seq<char>) {
    if has_prefix(s, lower_prefix(16)) || has_prefix(s, upper_prefix(16)) {
        (16, s.subrange(2, s.len() as int))
    } else if has_prefix(s, lower_prefix(8)) || has_prefix(s, upper_prefix(8)) {
        (8, s.subrange(2, s.len() as int))
    } else if has_prefix(s, lower_prefix(2)) || has_prefix(s, upper_prefix(2)) {
        (2, s.subrange(2, s.len() as int))
    } else {
        (10, s)
    }
}

// ===== Base conversion =====

pub open spec fn valid_base(b: int) -> bool {
    b == 2 || b == 8 || b == 10 || b == 16
}

/// What a base conversion comes to: a refusal, or the value read.
pub enum ConvertOutcome {
    BadToBase,
    BadFromBase(int),
    BadDigits(Seq<char>, int, IntErrorKind),
    Parsed(int),
}

/// After trimming, one leading sign and the base prefix, only digits of the
/// base may follow; their value with the sign applied must lie in `i64`.
pub open spec fn base_convert_outcome(value: Seq<char>, to_base: int, from_base: Option<i64>) -> ConvertOutcome {
    if !valid_base(to_base) {
        ConvertOutcome::BadToBase
    } else if from_base matches Some(b) && !valid_base(b as int) {
        ConvertOutcome::BadFromBase(from_base->0 as int)
    } else {
        let (sign, rest) = sign_part(trimmed(value));
        let (base, digits) = match from_base {
            Some(b) => (b as int, strip_prefix_spec(rest, b as int)),
            None => detect_base(rest),
        };
        if digits.len() == 0 {
            ConvertOutcome::BadDigits(digits, base, IntErrorKind::Empty)
        } else {
            match scan_digits(digits, base, sign < 0) {
                Err(k) => ConvertOutcome::BadDigits(digits, base, k),
                Ok(n) => ConvertOutcome::Parsed(n),
            }
        }
    }
}

/// `n` in base `b` as sign and magnitude: `-0xff`, `0o17`, `0b101`, or plain
/// decimal for base 10.
pub open spec fn sign_magnitude(n: int, b: int) -> Seq<char> {
    if b == 10 {
        signed_decimal(n)
    } else if n < 0 {
        seq!['-'] + lower_prefix(b) + digits_of((-n) as nat, b as nat)
    } else {
        lower_prefix(b) + digits_of(n as nat, b as nat)
    }
}

/// Converts `value` into all four bases, or says why it cannot.
fn convert_numeral(value: &str, to_base: i64, from_base: Option<i64>) -> (r: Result<
    BaseConvertResult,
    ProgrammerError,
>)
    ensures
        match base_convert_outcome(value@, to_base as int, from_base) {
            ConvertOutcome::BadToBase => r matches Err(ProgrammerError::InvalidToBase(b)) && b
                == to_base,
            ConvertOutcome::BadFromBase(b) => r matches Err(ProgrammerError::InvalidFromBase(c))
                && c == b,
            ConvertOutcome::BadDigits(d, b, k) => r matches Err(
                ProgrammerError::InvalidDigits { digits, base, kind },
            ) && digits@ == d && base == b && kind == k,
            ConvertOutcome::Parsed(n) => r matches Ok(res) && {
                &&& res.decimal@ == signed_decimal(n)
                &&& res.hex@ == sign_magnitude(n, 16)
                &&& res.octal@ == sign_magnitude(n, 8)
                &&& res.binary@ == sign_magnitude(n, 2)
                &&& res.result@ == sign_magnitude(n, to_base as int)
            },
        },
{
    let parsed = read_numeral(value, to_base, from_base);
    match parsed {
        Err(e) => Err(e),
        Ok(n) => Ok(format_in_bases(n, to_base)),
    }
}

/// The first half of a base conversion: validates the bases and reads the
/// signed value of the numeral.
fn read_numeral(value: &str, to_base: i64, from_base: Option<i64>) -> (r: Result<
    i64,
    ProgrammerError,
>)
    ensures
        match base_convert_outcome(value@, to_base as int, from_base) {
            ConvertOutcome::BadToBase => r matches Err(ProgrammerError::InvalidToBase(b)) && b
                == to_base,
            ConvertOutcome::BadFromBase(b) => r matches Err(ProgrammerError::InvalidFromBase(c))
                && c == b,
            ConvertOutcome::BadDigits(d, b, k) => r matches Err(
                ProgrammerError::InvalidDigits { digits, base, kind },
            ) && digits@ == d && base == b && kind == k,
            ConvertOutcome::Parsed(n) => r == Ok::<i64, ProgrammerError>(n as i64) && i64::MIN
                <= n <= i64::MAX,
        },
{
    if !(to_base == 2 || to_base == 8 || to_base == 10 || to_base == 16) {
        return Err(ProgrammerError::InvalidToBase(to_base));
    }
    let chars = chars_of(value);
    let trimmed_chars = trim_chars(&chars);
    let (base, sign, digits) = match from_base {
        Some(b) => {
            if !(b == 2 || b == 8 || b == 10 || b == 16) {
                return Err(ProgrammerError::InvalidFromBase(b));
            }
            let (sign, start) = extract_sign(&trimmed_chars);
            let rest = sub_chars(&trimmed_chars, start, trimmed_chars.len());
            let digits = strip_base_prefix(&rest, b);
            (b, sign, digits)
        },
        None => {
            let (sign, start) = extract_sign(&trimmed_chars);
            let rest = sub_chars(&trimmed_chars, start, trimmed_chars.len());
            if has_base_prefix(&rest, 16) {
                (16, sign, sub_chars(&rest, 2, rest.len()))
            } else if has_base_prefix(&rest, 8) {
                (8, sign, sub_chars(&rest, 2, rest.len()))
            } else if has_base_prefix(&rest, 2) {
                (2, sign, sub_chars(&rest, 2, rest.len()))
            } else {
                (10, sign, rest)
            }
        },
    };
    if digits.len() == 0 {
        return Err(
            ProgrammerError::InvalidDigits {
                digits: string_from_chars(&digits),
                base,
                kind: IntErrorKind::Empty,
            },
        );
    }
    match scan_digits_i64(&digits, base as u32, sign < 0) {
        Ok(n) => Ok(n),
        Err(kind) => Err(
            ProgrammerError::InvalidDigits { digits: string_from_chars(&digits), base, kind },
        ),
    }
}

/// `n` in base `b` in sign-magnitude form.
fn sign_magnitude_vec(n: i64, b: i64) -> (r: Vec<char>)
    requires
        valid_base(b as int),
    ensures
        r@ == sign_magnitude(n as int, b as int),
{
    if b == 10 {
        return signed_decimal_vec(n);
    }
    let mut r: Vec<char> = Vec::new();
    if n < 0 {
        r.push('-');
    }
    let p = prefix_chars(b, false);
    append_chars(&mut r, &p);
    let m: u64 = if n < 0 {
        (0i128 - (n as i128)) as u64
    } else {
        n as u64
    };
    let d = digits_vec(m, b as u64);
    append_chars(&mut r, &d);
    proof {
        if n < 0 {
            assert(r@ =~= seq!['-'] + lower_prefix(b as int) + digits_of((-n) as nat, b as nat));
        } else {
            assert(r@ =~= lower_prefix(b as int) + digits_of(n as nat, b as nat));
        }
    }
    r
}

fn format_in_bases(n: i64, to_base: i64) -> (res: BaseConvertResult)
    requires
        valid_base(to_base as int),
    ensures
        res.decimal@ == signed_decimal(n as int),
        res.hex@ == sign_magnitude(n as int, 16),
        res.octal@ == sign_magnitude(n as int, 8),
        res.binary@ == sign_magnitude(n as int, 2),
        res.result@ == sign_magnitude(n as int, to_base as int),
{
    let decimal = signed_decimal_vec(n);
    let hex = sign_magnitude_vec(n, 16);
    let octal = sign_magnitude_vec(n, 8);
    let binary = sign_magnitude_vec(n, 2);
    let result = if to_base == 10 {
        string_from_chars(&decimal)
    } else if to_base == 16 {
        string_from_chars(&hex)
    } else if to_base == 8 {
        string_from_chars(&octal)
    } else {
        string_from_chars(&binary)
    };
    BaseConvertResult {
        decimal: string_from_chars(&decimal),
        hex: string_from_chars(&hex),
        octal: string_from_chars(&octal),
        binary: string_from_chars(&binary),
        result,
    }
}


// ===== Bitwise operations =====

#[derive(PartialEq, Eq, Structural, Clone, Copy, Debug)]
pub enum BitOp {
    And,
    Or,
    Xor,
    Not,
    Shl,
    Shr,
}

/// The operation named by `op` ("and", "or", "xor", "not", "shl", "shr").
pub open spec fn bit_op_of(op: Seq<char>) -> Option<BitOp> {
    if op == seq!['a', 'n', 'd'] {
        Some(BitOp::And)
    } else if op == seq!['o', 'r'] {
        Some(BitOp::Or)
    } else if op == seq!['x', 'o', 'r'] {
        Some(BitOp::Xor)
    } else if op == seq!['n', 'o', 't'] {
        Some(BitOp::Not)
    } else if op == seq!['s', 'h', 'l'] {
        Some(BitOp::Shl)
    } else if op == seq!['s', 'h', 'r'] {
        Some(BitOp::Shr)
    } else {
        None
    }
}

fn parse_bit_op(op: &Vec<char>) -> (r: Option<BitOp>)
    ensures
        r == bit_op_of(op@),
{
    let and = vec!['a', 'n', 'd'];
    let or = vec!['o', 'r'];
    let xor = vec!['x', 'o', 'r'];
    let not = vec!['n', 'o', 't'];
    let shl = vec!['s', 'h', 'l'];
    let shr = vec!['s', 'h', 'r'];
    assert(and@ =~= seq!['a', 'n', 'd']);
    assert(or@ =~= seq!['o', 'r']);
    assert(xor@ =~= seq!['x', 'o', 'r']);
    assert(not@ =~= seq!['n', 'o', 't']);
    assert(shl@ =~= seq!['s', 'h', 'l']);
    assert(shr@ =~= seq!['s', 'h', 'r']);
    if same_chars(op, &and) {
        Some(BitOp::And)
    } else if same_chars(op, &or) {
        Some(BitOp::Or)
    } else if same_chars(op, &xor) {
        Some(BitOp::Xor)
    } else if same_chars(op, &not) {
        Some(BitOp::Not)
    } else if same_chars(op, &shl) {
        Some(BitOp::Shl)
    } else if same_chars(op, &shr) {
        Some(BitOp::Shr)
    } else {
        None
    }
}

/// The `w`-bit result of `op` on the pattern `au` and the operand `bv`
/// (a shift count for the shifts): and/or/xor of the two patterns, the
/// complement, a left shift that drops the bits shifted out, and a right
/// shift that is arithmetic when `signed` and logical otherwise.
pub open spec fn bit_result(op: BitOp, au: u64, bv: i64, w: int, signed: bool) -> u64 {
    let m = width_mask(w) as u64;
    let bu = (bv as u64) & m;
    match op {
        BitOp::And => (au & bu) & m,
        BitOp::Or => (au | bu) & m,
        BitOp::Xor => (au ^ bu) & m,
        BitOp::Not => (!au) & m,
        BitOp::Shl => (au << (bv as u64)) & m,
        BitOp::Shr => if signed {
            (((signed_of(au as int, w) as i64) >> (bv as u64)) as u64) & m
        } else {
            au >> (bv as u64)
        },
    }
}

/// The text an integer input was given as (empty for a number).
pub open spec fn input_text(x: &IntInput) -> Seq<char> {
    match x {
        IntInput::S(s) => s@,
        IntInput::I(_) => Seq::empty(),
    }
}

/// What a bitwise request comes to: a refusal or the masked result.
pub enum BitwiseOutcome {
    BadWidth,
    BadOp,
    MissingB,
    ExtraB,
    BadA(Seq<char>),
    RangeA(int, bool),
    BadB(Seq<char>),
    RangeB(int, bool),
    BadShift(int),
    Value(u64),
}

pub open spec fn needs_second(o: BitOp) -> bool {
    o != BitOp::Not
}

pub open spec fn bitwise_outcome(
    op: Seq<char>,
    a: &IntInput,
    b: &Option<IntInput>,
    w: int,
    signed: bool,
) -> BitwiseOutcome {
    if !valid_width(w) {
        BitwiseOutcome::BadWidth
    } else {
        match bit_op_of(op) {
            None => BitwiseOutcome::BadOp,
            Some(o) => if needs_second(o) && b is None {
                BitwiseOutcome::MissingB
            } else if !needs_second(o) && b is Some {
                BitwiseOutcome::ExtraB
            } else {
                match int_input_value(a) {
                    None => BitwiseOutcome::BadA(input_text(a)),
                    Some(av) => match range_failure(av, w, signed) {
                        Some(neg) => BitwiseOutcome::RangeA(av, neg),
                        None => {
                            let au = ((av as i64) as u64) & (width_mask(w) as u64);
                            if !needs_second(o) {
                                BitwiseOutcome::Value(bit_result(o, au, 0, w, signed))
                            } else {
                                match int_input_value(&b->0) {
                                    None => BitwiseOutcome::BadB(input_text(&b->0)),
                                    Some(bv) => if o == BitOp::Shl || o == BitOp::Shr {
                                        if bv < 0 || bv >= w {
                                            BitwiseOutcome::BadShift(bv)
                                        } else {
                                            BitwiseOutcome::Value(
                                                bit_result(o, au, bv as i64, w, signed),
                                            )
                                        }
                                    } else {
                                        match range_failure(bv, w, signed) {
                                            Some(neg) => BitwiseOutcome::RangeB(bv, neg),
                                            None => BitwiseOutcome::Value(
                                                bit_result(o, au, bv as i64, w, signed),
                                            ),
                                        }
                                    },
                                }
                            }
                        },
                    },
                }
            },
        }
    }
}

/// The text forms of a `w`-bit result `v`.
pub open spec fn value_text(v: int, w: int, signed: bool) -> Seq<char> {
    if signed {
        signed_decimal(signed_of(v, w))
    } else {
        digits_of(v as nat, 10)
    }
}

pub open spec fn padded_hex(v: int, w: int) -> Seq<char> {
    seq!['0', 'x'] + zero_padded(digits_of(v as nat, 16), w / 4)
}

pub open spec fn padded_octal(v: int, w: int) -> Seq<char> {
    seq!['0', 'o'] + zero_padded(digits_of(v as nat, 8), (w + 2) / 3)
}

pub open spec fn padded_binary(v: int, w: int) -> Seq<char> {
    seq!['0', 'b'] + zero_padded(digits_of(v as nat, 2), w)
}

/// A bitwise operation, or why it cannot be applied.
fn apply_bitwise(operation: &str, a: IntInput, b: Option<IntInput>, bit_width: i64, signed: bool) -> (r:
    Result<BitwiseResult, ProgrammerError>)
    ensures
        match bitwise_outcome(operation@, &a, &b, bit_width as int, signed) {
            BitwiseOutcome::BadWidth => r matches Err(ProgrammerError::InvalidBitWidth(x)) && x
                == bit_width,
            BitwiseOutcome::BadOp => r matches Err(ProgrammerError::UnknownOperation(t)) && t@
                == operation@,
            BitwiseOutcome::MissingB => r matches Err(ProgrammerError::MissingOperand(t)) && t@
                == operation@,
            BitwiseOutcome::ExtraB => r matches Err(ProgrammerError::UnexpectedOperand),
            BitwiseOutcome::BadA(t) => r matches Err(ProgrammerError::NotAnInteger(u)) && u@ == t,
            BitwiseOutcome::RangeA(v, neg) => r matches Err(e) && range_error_matches(
                e,
                v,
                bit_width as int,
                neg,
            ),
            BitwiseOutcome::BadB(t) => r matches Err(ProgrammerError::NotAnInteger(u)) && u@ == t,
            BitwiseOutcome::RangeB(v, neg) => r matches Err(e) && range_error_matches(
                e,
                v,
                bit_width as int,
                neg,
            ),
            BitwiseOutcome::BadShift(c) => r matches Err(
                ProgrammerError::ShiftOutOfRange { count, bit_width: w },
            ) && count == c && w == bit_width,
            BitwiseOutcome::Value(v) => r matches Ok(res) && {
                &&& res.value@ == value_text(v as int, bit_width as int, signed)
                &&& res.unsigned_value@ == digits_of(v as nat, 10)
                &&& res.hex@ == padded_hex(v as int, bit_width as int)
                &&& res.octal@ == padded_octal(v as int, bit_width as int)
                &&& res.binary@ == padded_binary(v as int, bit_width as int)
            },
        },
{
    if !(bit_width == 8 || bit_width == 16 || bit_width == 32 || bit_width == 64) {
        return Err(ProgrammerError::InvalidBitWidth(bit_width));
    }
    let op_chars = chars_of(operation);
    let op = match parse_bit_op(&op_chars) {
        Some(o) => o,
        None => return Err(ProgrammerError::UnknownOperation(operation.to_owned())),
    };
    let needs_b = !matches!(op, BitOp::Not);
    if needs_b && b.is_none() {
        return Err(ProgrammerError::MissingOperand(operation.to_owned()));
    }
    if !needs_b && b.is_some() {
        return Err(ProgrammerError::UnexpectedOperand);
    }
    let a_val = match a.read() {
        Ok(v) => v,
        Err(e) => return Err(e),
    };
    match validate_range(a_val, bit_width, signed) {
        Ok(()) => {},
        Err(e) => return Err(e),
    }
    let mask = mask_for_width(bit_width);
    let a_u64 = (a_val as u64) & mask;
    proof {
        assert((a_u64 & mask) <= mask) by (bit_vector);
        assert(a_u64 <= mask) by (bit_vector)
            requires
                a_u64 == (a_val as u64) & mask,
        ;
    }
    let b_val: i64 = match b {
        Some(bi) => {
            let bv = match bi.read() {
                Ok(v) => v,
                Err(e) => return Err(e),
            };
            if matches!(op, BitOp::Shl) || matches!(op, BitOp::Shr) {
                if bv < 0 || bv >= bit_width {
                    return Err(ProgrammerError::ShiftOutOfRange { count: bv, bit_width });
                }
            } else {
                match validate_range(bv, bit_width, signed) {
                    Ok(()) => {},
                    Err(e) => return Err(e),
                }
            }
            bv
        },
        None => 0,
    };
    let res = compute_bit_op(op, a_u64, b_val, bit_width, signed);
    Ok(format_bit_result(res, bit_width, signed))
}

proof fn lemma_and_mask_le(y: u64, m: u64)
    ensures
        (y & m) <= m,
{
    assert((y & m) <= m) by (bit_vector);
}

fn compute_bit_op(op: BitOp, a_u64: u64, b_val: i64, bit_width: i64, signed: bool) -> (res: u64)
    requires
        valid_width(bit_width as int),
        a_u64 as int <= width_mask(bit_width as int),
        (op == BitOp::Shl || op == BitOp::Shr) ==> 0 <= b_val < bit_width,
    ensures
        res == bit_result(op, a_u64, b_val, bit_width as int, signed),
        res as int <= width_mask(bit_width as int),
{
    let mask = mask_for_width(bit_width);
    let b_u64 = (b_val as u64) & mask;
    let r = match op {
        BitOp::And => (a_u64 & b_u64) & mask,
        BitOp::Or => (a_u64 | b_u64) & mask,
        BitOp::Xor => (a_u64 ^ b_u64) & mask,
        BitOp::Not => (!a_u64) & mask,
        BitOp::Shl => (a_u64 << (b_val as u64)) & mask,
        BitOp::Shr => {
            if signed {
                let signed_a = to_signed(a_u64, bit_width);
                ((signed_a >> (b_val as u64)) as u64) & mask
            } else {
                a_u64 >> (b_val as u64)
            }
        },
    };
    proof {
        let bs = b_val as u64;
        match op {
            BitOp::And => lemma_and_mask_le(a_u64 & b_u64, mask),
            BitOp::Or => lemma_and_mask_le(a_u64 | b_u64, mask),
            BitOp::Xor => lemma_and_mask_le(a_u64 ^ b_u64, mask),
            BitOp::Not => lemma_and_mask_le(!a_u64, mask),
            BitOp::Shl => lemma_and_mask_le(a_u64 << bs, mask),
            BitOp::Shr => {
                if signed {
                    lemma_and_mask_le(
                        ((signed_of(a_u64 as int, bit_width as int) as i64) >> bs) as u64,
                        mask,
                    );
                } else {
                    assert(a_u64 <= mask ==> (a_u64 >> bs) <= mask) by (bit_vector);
                }
            },
        }
    }
    r
}

fn format_bit_result(res: u64, bit_width: i64, signed: bool) -> (out: BitwiseResult)
    requires
        valid_width(bit_width as int),
        res as int <= width_mask(bit_width as int),
    ensures
        out.value@ == value_text(res as int, bit_width as int, signed),
        out.unsigned_value@ == digits_of(res as nat, 10),
        out.hex@ == padded_hex(res as int, bit_width as int),
        out.octal@ == padded_octal(res as int, bit_width as int),
        out.binary@ == padded_binary(res as int, bit_width as int),
{
    let unsigned = digits_vec(res, 10);
    let value = if signed {
        signed_decimal_vec(to_signed(res, bit_width))
    } else {
        digits_vec(res, 10)
    };
    let hex_width = (bit_width / 4) as usize;
    let oct_width = ((bit_width + 2) / 3) as usize;
    let bin_width = bit_width as usize;
    let mut hex = vec!['0', 'x'];
    append_chars(&mut hex, &zero_pad(&digits_vec(res, 16), hex_width));
    let mut octal = vec!['0', 'o'];
    append_chars(&mut octal, &zero_pad(&digits_vec(res, 8), oct_width));
    let mut binary = vec!['0', 'b'];
    append_chars(&mut binary, &zero_pad(&digits_vec(res, 2), bin_width));
    proof {
        assert(hex@ =~= padded_hex(res as int, bit_width as int));
        assert(octal@ =~= padded_octal(res as int, bit_width as int));
        assert(binary@ =~= padded_binary(res as int, bit_width as int));
    }
    BitwiseResult {
        value: string_from_chars(&value),
        unsigned_value: string_from_chars(&unsigned),
        hex: string_from_chars(&hex),
        octal: string_from_chars(&octal),
        binary: string_from_chars(&binary),
    }
}

// ===== The tools =====

/// The message of a refused conversion.
pub open spec fn convert_failure_text(o: ConvertOutcome, to_base: int) -> Seq<char> {
    match o {
        ConvertOutcome::BadToBase => "to_base must be 2, 8, 10, or 16, got "@ + signed_decimal(
            to_base,
        ),
        ConvertOutcome::BadFromBase(b) => "from_base must be 2, 8, 10, or 16, got "@
            + signed_decimal(b),
        ConvertOutcome::BadDigits(d, b, k) => "Failed to parse '"@ + d + "' as base "@
            + signed_decimal(b) + ": "@ + int_error_text(k),
        ConvertOutcome::Parsed(_) => Seq::empty(),
    }
}

/// Converts `value` (a signed numeral in base 2, 8, 10 or 16, its base given
/// or told by a `0x`/`0o`/`0b` prefix) into all four bases in sign-magnitude
/// form.
pub fn base_convert(value: &str, to_base: i64, from_base: Option<i64>) -> (r: Result<
    BaseConvertResult,
    String,
>)
    ensures
        match base_convert_outcome(value@, to_base as int, from_base) {
            ConvertOutcome::Parsed(n) => r matches Ok(res) && {
                &&& res.decimal@ == signed_decimal(n)
                &&& res.hex@ == sign_magnitude(n, 16)
                &&& res.octal@ == sign_magnitude(n, 8)
                &&& res.binary@ == sign_magnitude(n, 2)
                &&& res.result@ == sign_magnitude(n, to_base as int)
            },
            o => r matches Err(m) && m@ == convert_failure_text(o, to_base as int),
        },
{
    match convert_numeral(value, to_base, from_base) {
        Ok(res) => Ok(res),
        Err(e) => Err(e.message()),
    }
}

/// The message for a value outside the unsigned range of `w` bits.
pub open spec fn range_failure_text(v: int, w: int, negative: bool) -> Seq<char> {
    if negative {
        "Value "@ + signed_decimal(v) + " is negative but signed=false (unsigned "@
            + signed_decimal(w) + "-bit range is [0, "@ + digits_of(width_mask(w) as nat, 10)
            + "])"@
    } else {
        "Value "@ + signed_decimal(v) + " is outside unsigned "@ + signed_decimal(w)
            + "-bit range [0, "@ + digits_of(width_mask(w) as nat, 10) + "]"@
    }
}

/// The message of a refused bitwise request.
pub open spec fn bitwise_failure_text(o: BitwiseOutcome, op: Seq<char>, w: int) -> Seq<char> {
    match o {
        BitwiseOutcome::BadWidth => "bit_width must be 8, 16, 32, or 64, got "@ + signed_decimal(
            w,
        ),
        BitwiseOutcome::BadOp => "Unknown operation: "@ + op
            + " (expected and, or, xor, not, shl, or shr)"@,
        BitwiseOutcome::MissingB => "Operation '"@ + op + "' requires a second operand 'b'"@,
        BitwiseOutcome::ExtraB => "Operation 'not' does not accept a second operand 'b'"@,
        BitwiseOutcome::BadA(t) => "Cannot parse '"@ + t + "' as integer"@,
        BitwiseOutcome::RangeA(v, neg) => range_failure_text(v, w, neg),
        BitwiseOutcome::BadB(t) => "Cannot parse '"@ + t + "' as integer"@,
        BitwiseOutcome::RangeB(v, neg) => range_failure_text(v, w, neg),
        BitwiseOutcome::BadShift(c) => "Shift count "@ + signed_decimal(c) + " is out of range [0, "@
            + signed_decimal(w) + ")"@,
        BitwiseOutcome::Value(_) => Seq::empty(),
    }
}

/// Applies a bitwise operation to `w`-bit values: operands are masked to the
/// width, checked against the unsigned range unless `signed`, and the result
/// is shown as a (signed or unsigned) decimal and as padded bit patterns.
pub fn bitwise(operation: &str, a: IntInput, b: Option<IntInput>, bit_width: i64, signed: bool) -> (r:
    Result<BitwiseResult, String>)
    ensures
        match bitwise_outcome(operation@, &a, &b, bit_width as int, signed) {
            BitwiseOutcome::Value(v) => r matches Ok(res) && {
                &&& res.value@ == value_text(v as int, bit_width as int, signed)
                &&& res.unsigned_value@ == digits_of(v as nat, 10)
                &&& res.hex@ == padded_hex(v as int, bit_width as int)
                &&& res.octal@ == padded_octal(v as int, bit_width as int)
                &&& res.binary@ == padded_binary(v as int, bit_width as int)
            },
            o => r matches Err(m) && m@ == bitwise_failure_text(o, operation@, bit_width as int),
        },
{
    match apply_bitwise(operation, a, b, bit_width, signed) {
        Ok(res) => Ok(res),
        Err(e) => Err(e.message()),
    }
}

// ===== Laws =====

proof fn lemma_digit_chars_plain(d: Seq<char>, b: int)
    requires
        2 <= b <= 16,
        all_digits(d, b),
    ensures
        forall|i: int| 0 <= i < d.len() ==> !is_white_space(#[trigger] d[i]) && d[i] != '-'
            && d[i] != '+',
{
    assert forall|i: int| 0 <= i < d.len() implies !is_white_space(#[trigger] d[i]) && d[i] != '-'
        && d[i] != '+' by {
        assert(digit_value(d[i]) < b);
    }
}

proof fn lemma_trimmed_plain(t: Seq<char>)
    requires
        t.len() > 0,
        !is_white_space(t[0]),
        !is_white_space(t.last()),
    ensures
        trimmed(t) == t,
{
    assert(lead_ws(t) == 0);
    assert(trail_ws(t) == 0);
    assert(t.subrange(0, t.len() as int) =~= t);
}

/// The digits after the base prefix (none for base 10).
pub open spec fn prefixed_digits(d: Seq<char>, b: int) -> Seq<char> {
    if b == 10 {
        d
    } else {
        lower_prefix(b) + d
    }
}

proof fn lemma_detect_written_base(d: Seq<char>, b: int)
    requires
        valid_base(b),
        all_digits(d, b),
        d.len() >= 1,
    ensures
        detect_base(prefixed_digits(d, b)) == (b, d),
{
    let rest = prefixed_digits(d, b);
    if b == 10 {
        if d.len() >= 2 {
            assert(digit_value(d[1]) < 10);
        }
    } else {
        assert(rest.subrange(2, rest.len() as int) =~= d);
        assert(rest[0] == '0' && rest[1] == lower_prefix(b)[1]);
        assert(rest.subrange(0, 2) =~= lower_prefix(b));
        if b != 16 {
            assert(rest.subrange(0, 2)[1] != lower_prefix(16)[1]);
            assert(rest.subrange(0, 2)[1] != upper_prefix(16)[1]);
        }
        if b == 2 {
            assert(rest.subrange(0, 2)[1] != lower_prefix(8)[1]);
            assert(rest.subrange(0, 2)[1] != upper_prefix(8)[1]);
        }
    }
}

proof fn lemma_written_shape(n: int, b: int, m: nat)
    requires
        valid_base(b),
        m == if n < 0 {
            -n
        } else {
            n
        },
    ensures
        trimmed(sign_magnitude(n, b)) == sign_magnitude(n, b),
        sign_part(sign_magnitude(n, b)) == (if n < 0 {
            -1int
        } else {
            1int
        }, prefixed_digits(digits_of(m, b as nat), b)),
{
    let d = digits_of(m, b as nat);
    lemma_digits_roundtrip(m, b as nat);
    lemma_digit_chars_plain(d, b);
    let body = prefixed_digits(d, b);
    let text = sign_magnitude(n, b);
    assert(text =~= if n < 0 {
        seq!['-'] + body
    } else {
        body
    });
    assert(text.last() == d.last());
    lemma_trimmed_plain(text);
    if n < 0 {
        assert(text.drop_first() =~= body);
    }
}

/// What `base_convert` writes for `n` in any base, `base_convert` reads back
/// (detecting the base from the prefix) as `n`.
pub proof fn law_convert_readback(n: int, b: int, to: int)
    requires
        i64::MIN <= n <= i64::MAX,
        valid_base(b),
        valid_base(to),
    ensures
        base_convert_outcome(sign_magnitude(n, b), to, None) == ConvertOutcome::Parsed(n),
{
    let m: nat = if n < 0 {
        (-n) as nat
    } else {
        n as nat
    };
    let d = digits_of(m, b as nat);
    lemma_digits_roundtrip(m, b as nat);
    lemma_digit_chars_plain(d, b);
    lemma_written_shape(n, b, m);
    lemma_detect_written_base(d, b);
    lemma_scan_value(d, b, n < 0);
    assert(scan_digits(d, b, n < 0) == Ok::<int, IntErrorKind>(n));
}

/// Every bitwise result stays within the bit width.
pub proof fn law_bitwise_within_width(o: BitOp, au: u64, bv: i64, w: int, signed: bool)
    requires
        valid_width(w),
        au <= width_mask(w),
        o == BitOp::Shl || o == BitOp::Shr ==> 0 <= bv < w,
    ensures
        bit_result(o, au, bv, w, signed) <= width_mask(w),
{
    let m = width_mask(w) as u64;
    let k = bv as u64;
    let bu = (bv as u64) & m;
    match o {
        BitOp::And => lemma_and_mask_le(au & bu, m),
        BitOp::Or => lemma_and_mask_le(au | bu, m),
        BitOp::Xor => lemma_and_mask_le(au ^ bu, m),
        BitOp::Not => lemma_and_mask_le(!au, m),
        BitOp::Shl => lemma_and_mask_le(au << k, m),
        BitOp::Shr => {
            if signed {
                lemma_and_mask_le(((signed_of(au as int, w) as i64) >> k) as u64, m);
            } else {
                assert(au >> k <= au) by (bit_vector);
            }
        },
    }
}

/// Inverting twice gives the operand back.
pub proof fn law_not_involutive(au: u64, w: int, signed: bool)
    requires
        valid_width(w),
        au <= width_mask(w),
    ensures
        bit_result(BitOp::Not, bit_result(BitOp::Not, au, 0, w, signed), 0, w, signed) == au,
{
    let m = width_mask(w) as u64;
    assert(au & m == au) by (bit_vector)
        requires
            au <= m,
            m == 0xff || m == 0xffff || m == 0xffff_ffff || m == 0xffff_ffff_ffff_ffff,
    ;
    assert((!((!au) & m)) & m == au & m) by (bit_vector);
}

/// A signed right shift is arithmetic: the `w`-bit result, read as two's
/// complement, is the operand's two's-complement reading shifted with its
/// sign bit copied in.
pub proof fn law_signed_shift_right(au: u64, k: i64, w: int)
    requires
        valid_width(w),
        au <= width_mask(w),
        0 <= k < w,
    ensures
        signed_of(bit_result(BitOp::Shr, au, k, w, true) as int, w) == ((signed_of(au as int, w)
            as i64) >> (k as u64)) as int,
{
    lemma_signed_of_roundtrip(au as int, w);
    let x = signed_of(au as int, w) as i64;
    let s = k as u64;
    let r = bit_result(BitOp::Shr, au, k, w, true);
    assert(r == ((x >> s) as u64) & (width_mask(w) as u64));
    if w == 8 {
        assert(-128 <= x < 128);
        assert({
            let r8 = ((x >> s) as u64) & 0xff;
            (if r8 > 127 { r8 - 256 } else { r8 as int }) == (x >> s) as int
        }) by (bit_vector)
            requires
                -128 <= x < 128,
                s < 8,
        ;
    } else if w == 16 {
        assert({
            let r16 = ((x >> s) as u64) & 0xffff;
            (if r16 > 32767 { r16 - 65536 } else { r16 as int }) == (x >> s) as int
        }) by (bit_vector)
            requires
                -32768 <= x < 32768,
                s < 16,
        ;
    } else if w == 32 {
        assert({
            let r32 = ((x >> s) as u64) & 0xffff_ffff;
            (if r32 > 0x7fff_ffff { r32 - 0x1_0000_0000 } else { r32 as int }) == (x >> s) as int
        }) by (bit_vector)
            requires
                -0x8000_0000 <= x < 0x8000_0000,
                s < 32,
        ;
    } else {
        assert({
            let r64 = ((x >> s) as u64) & 0xffff_ffff_ffff_ffff;
            (if r64 > 0x7fff_ffff_ffff_ffff { r64 - 0x1_0000_0000_0000_0000 } else { r64 as int })
                == (x >> s) as int
        }) by (bit_vector)
            requires
                s < 64,
        ;
    }
}

/// Whether bit `i` of `x` is set.
pub open spec fn bit_set(x: u64, i: u64) -> bool {
    (x >> i) & 1 == 1
}

/// Bit by bit, within the width: `and`, `or` and `xor` set a bit where both,
/// either, or exactly one of the operands (the second taken as its
/// two's-complement pattern) has it; `not` flips each bit; a left shift by
/// `k` moves bit `i - k` to `i` and clears the `k` low bits; an unsigned
/// right shift moves bit `i + k` to `i` and clears the `k` high bits.
pub proof fn law_bitwise_bits(o: BitOp, au: u64, bv: i64, w: int, signed: bool, i: u64)
    requires
        valid_width(w),
        au <= width_mask(w),
        i < w,
        o == BitOp::Shl || o == BitOp::Shr ==> 0 <= bv < w,
    ensures
        ({
            let r = bit_result(o, au, bv, w, signed);
            let b = bv as u64;
            match o {
                BitOp::And => bit_set(r, i) == (bit_set(au, i) && bit_set(b, i)),
                BitOp::Or => bit_set(r, i) == (bit_set(au, i) || bit_set(b, i)),
                BitOp::Xor => bit_set(r, i) == (bit_set(au, i) != bit_set(b, i)),
                BitOp::Not => bit_set(r, i) == !bit_set(au, i),
                BitOp::Shl => bit_set(r, i) == (i >= b && bit_set(au, (i - b) as u64)),
                BitOp::Shr => !signed ==> bit_set(r, i) == (i + b < w && bit_set(
                    au,
                    (i + b) as u64,
                )),
            }
        }),
{
    let m = width_mask(w) as u64;
    let b = bv as u64;
    assert((m >> i) & 1 == 1) by (bit_vector)
        requires
            (m == 0xff && i < 8) || (m == 0xffff && i < 16) || (m == 0xffff_ffff && i < 32) || (m
                == 0xffff_ffff_ffff_ffff && i < 64),
    ;
    let r = bit_result(o, au, bv, w, signed);
    match o {
        BitOp::And => {
            assert((((au & (b & m)) & m) >> i) & 1 == 1 <==> ((au >> i) & 1 == 1 && (b >> i) & 1
                == 1)) by (bit_vector)
                requires
                    (m >> i) & 1 == 1,
            ;
        },
        BitOp::Or => {
            assert((((au | (b & m)) & m) >> i) & 1 == 1 <==> ((au >> i) & 1 == 1 || (b >> i) & 1
                == 1)) by (bit_vector)
                requires
                    (m >> i) & 1 == 1,
            ;
        },
        BitOp::Xor => {
            assert((((au ^ (b & m)) & m) >> i) & 1 == 1 <==> ((au >> i) & 1 == 1) != ((b >> i) & 1
                == 1)) by (bit_vector)
                requires
                    (m >> i) & 1 == 1,
            ;
        },
        BitOp::Not => {
            assert(((((!au) & m) >> i) & 1 == 1) <==> !((au >> i) & 1 == 1)) by (bit_vector)
                requires
                    (m >> i) & 1 == 1,
            ;
        },
        BitOp::Shl => {
            assert(((((au << b) & m) >> i) & 1 == 1) <==> (i >= b && ((au >> ((i - b) as u64)) & 1
                == 1))) by (bit_vector)
                requires
                    (m >> i) & 1 == 1,
                    i < 64,
                    b < 64,
            ;
        },
        BitOp::Shr => {
            if !signed {
                assert(r == au >> b);
                if i + b < w {
                    assert(((au >> b) >> i) & 1 == (au >> ((i + b) as u64)) & 1) by (bit_vector)
                        requires
                            i + b < 64,
                    ;
                } else {
                    assert(((au >> b) >> i) & 1 == 0) by (bit_vector)
                        requires
                            (au <= 0xff && i < 8 && b < 8 && i + b >= 8) || (au <= 0xffff && i < 16
                                && b < 16 && i + b >= 16) || (au <= 0xffff_ffff && i < 32 && b < 32
                                && i + b >= 32) || (i < 64 && b < 64 && i + b >= 64),
                    ;
                }
            }
        },
    }
}

} // verus!
