//! Character-level helpers shared by the parsers and formatters of the
//! library: whitespace trimming, radix digits, integer parsing and printing.
use vstd::prelude::*;

verus! {

// ---------------------------------------------------------------------------
// Strings and character sequences
// ---------------------------------------------------------------------------

/// The characters of `s`, in order.
pub fn chars_of(s: &str) -> (v: Vec<char>)
    ensures
        v@ == s@,
{
    let n = s.unicode_len();
    let mut v: Vec<char> = Vec::new();
    let mut i: usize = 0;
    while i < n
        invariant
            n == s@.len(),
            i <= n,
            v@ == s@.subrange(0, i as int),
        decreases n - i,
    {
        let c = s.get_char(i);
        v.push(c);
        i = i + 1;
        assert(v@ =~= s@.subrange(0, i as int));
    }
    assert(v@ =~= s@);
    v
}

/// Collects characters into a `String` (std's `FromIterator<char>` for `String`).
#[verifier::external_body]
pub fn string_from_chars(v: &Vec<char>) -> (s: String)
    ensures
        s@ == v@,
{
    v.iter().collect()
}

/// The characters `v[lo..hi]` as a new vector.
pub fn sub_chars(v: &Vec<char>, lo: usize, hi: usize) -> (r: Vec<char>)
    requires
        lo <= hi <= v@.len(),
    ensures
        r@ == v@.subrange(lo as int, hi as int),
{
    let mut r: Vec<char> = Vec::new();
    let mut i = lo;
    while i < hi
        invariant
            lo <= i <= hi <= v@.len(),
            r@ == v@.subrange(lo as int, i as int),
        decreases hi - i,
    {
        r.push(v[i]);
        i = i + 1;
        assert(r@ =~= v@.subrange(lo as int, i as int));
    }
    r
}

/// Appends all of `src` to `dst`.
pub fn append_chars(dst: &mut Vec<char>, src: &Vec<char>)
    ensures
        final(dst)@ == old(dst)@ + src@,
{
    let mut i: usize = 0;
    while i < src.len()
        invariant
            i <= src@.len(),
            dst@ == old(dst)@ + src@.subrange(0, i as int),
        decreases src@.len() - i,
    {
        dst.push(src[i]);
        i = i + 1;
        assert(dst@ =~= old(dst)@ + src@.subrange(0, i as int));
    }
    assert(src@.subrange(0, src@.len() as int) =~= src@);
}

/// Whether `s` begins with `p`.
pub open spec fn has_prefix(s: Seq<char>, p: Seq<char>) -> bool {
    p.len() <= s.len() && s.subrange(0, p.len() as int) == p
}

pub fn starts_with(s: &Vec<char>, p: &Vec<char>) -> (b: bool)
    ensures
        b == has_prefix(s@, p@),
{
    if p.len() > s.len() {
        return false;
    }
    let mut i: usize = 0;
    while i < p.len()
        invariant
            p@.len() <= s@.len(),
            i <= p@.len(),
            forall|j: int| 0 <= j < i ==> s@[j] == p@[j],
        decreases p@.len() - i,
    {
        if s[i] != p[i] {
            assert(s@.subrange(0, p@.len() as int)[i as int] != p@[i as int]);
            return false;
        }
        i = i + 1;
    }
    assert(s@.subrange(0, p@.len() as int) =~= p@);
    true
}

/// Whether `c` occurs in `s`.
pub fn contains_char(s: &Vec<char>, c: char) -> (b: bool)
    ensures
        b == s@.contains(c),
{
    let mut i: usize = 0;
    while i < s.len()
        invariant
            i <= s@.len(),
            forall|j: int| 0 <= j < i ==> s@[j] != c,
        decreases s@.len() - i,
    {
        if s[i] == c {
            assert(s@[i as int] == c);
            return true;
        }
        i = i + 1;
    }
    false
}

/// Number of occurrences of `c` in `s`.
pub open spec fn count_char(s: Seq<char>, c: char) -> nat
    decreases s.len(),
{
    if s.len() == 0 {
        0
    } else {
        count_char(s.drop_last(), c) + (if s.last() == c { 1nat } else { 0nat })
    }
}

pub fn count_occurrences(s: &Vec<char>, c: char) -> (n: usize)
    ensures
        n == count_char(s@, c),
{
    let mut n: usize = 0;
    let mut i: usize = 0;
    while i < s.len()
        invariant
            i <= s@.len(),
            n == count_char(s@.subrange(0, i as int), c),
            n <= i,
        decreases s@.len() - i,
    {
        assert(s@.subrange(0, i + 1 as int).drop_last() =~= s@.subrange(0, i as int));
        if s[i] == c {
            n = n + 1;
        }
        i = i + 1;
    }
    assert(s@.subrange(0, s@.len() as int) =~= s@);
    n
}

// ---------------------------------------------------------------------------
// Whitespace and trimming (the Unicode `White_Space` property, as `char::is_whitespace`)
// ---------------------------------------------------------------------------

pub open spec fn is_white_space(c: char) -> bool {
    let u = c as u32;
    ||| 0x9 <= u <= 0xD
    ||| u == 0x20
    ||| u == 0x85
    ||| u == 0xA0
    ||| u == 0x1680
    ||| 0x2000 <= u <= 0x200A
    ||| u == 0x2028
    ||| u == 0x2029
    ||| u == 0x202F
    ||| u == 0x205F
    ||| u == 0x3000
}

pub fn is_white_space_char(c: char) -> (b: bool)
    ensures
        b == is_white_space(c),
{
    let u = c as u32;
    (0x9 <= u && u <= 0xD) || u == 0x20 || u == 0x85 || u == 0xA0 || u == 0x1680 || (0x2000 <= u
        && u <= 0x200A) || u == 0x2028 || u == 0x2029 || u == 0x202F || u == 0x205F || u == 0x3000
}

/// Length of the leading run of white space.
pub open spec fn lead_ws(s: Seq<char>) -> nat
    decreases s.len(),
{
    if s.len() == 0 || !is_white_space(s[0]) {
        0
    } else {
        1 + lead_ws(s.drop_first())
    }
}

/// Length of the trailing run of white space.
pub open spec fn trail_ws(s: Seq<char>) -> nat
    decreases s.len(),
{
    if s.len() == 0 || !is_white_space(s.last()) {
        0
    } else {
        1 + trail_ws(s.drop_last())
    }
}

/// `s` without leading and trailing white space (`str::trim`).
pub open spec fn trimmed(s: Seq<char>) -> Seq<char> {
    let a = lead_ws(s);
    if a == s.len() {
        Seq::empty()
    } else {
        s.subrange(a as int, s.len() - trail_ws(s))
    }
}

proof fn lemma_lead_ws_step(s: Seq<char>, i: int)
    requires
        0 <= i < s.len(),
        forall|j: int| 0 <= j < i ==> is_white_space(s[j]),
    ensures
        lead_ws(s) >= i,
        !is_white_space(s[i]) ==> lead_ws(s) == i,
        lead_ws(s) <= s.len(),
    decreases i,
{
    lemma_lead_ws_bound(s);
    if i > 0 {
        lemma_lead_ws_step(s.drop_first(), i - 1);
    }
}

proof fn lemma_lead_ws_bound(s: Seq<char>)
    ensures
        lead_ws(s) <= s.len(),
        lead_ws(s) < s.len() ==> !is_white_space(s[lead_ws(s) as int]),
        forall|j: int| 0 <= j < lead_ws(s) ==> is_white_space(#[trigger] s[j]),
    decreases s.len(),
{
    if s.len() > 0 && is_white_space(s[0]) {
        lemma_lead_ws_bound(s.drop_first());
        assert forall|j: int| 0 <= j < lead_ws(s) implies is_white_space(#[trigger] s[j]) by {
            if j > 0 {
                assert(s[j] == s.drop_first()[j - 1]);
            }
        }
    }
}

proof fn lemma_trail_ws_bound(s: Seq<char>)
    ensures
        trail_ws(s) <= s.len(),
        trail_ws(s) < s.len() ==> !is_white_space(s[s.len() - 1 - trail_ws(s)]),
        forall|j: int| s.len() - trail_ws(s) <= j < s.len() ==> is_white_space(#[trigger] s[j]),
    decreases s.len(),
{
    if s.len() > 0 && is_white_space(s.last()) {
        lemma_trail_ws_bound(s.drop_last());
        assert forall|j: int| s.len() - trail_ws(s) <= j < s.len() implies is_white_space(
            #[trigger] s[j],
        ) by {
            if j < s.len() - 1 {
                assert(s[j] == s.drop_last()[j]);
            }
        }
    }
}

/// Index of the first non-white-space character (or the length).
pub fn lead_ws_len(s: &Vec<char>) -> (n: usize)
    ensures
        n == lead_ws(s@),
{
    let mut i: usize = 0;
    while i < s.len() && is_white_space_char(s[i])
        invariant
            i <= s@.len(),
            forall|j: int| 0 <= j < i ==> is_white_space(s@[j]),
        decreases s@.len() - i,
    {
        i = i + 1;
    }
    proof {
        lemma_lead_ws_bound(s@);
        if i < s@.len() {
            lemma_lead_ws_step(s@, i as int);
        } else {
            if lead_ws(s@) < s@.len() {
                assert(is_white_space(s@[lead_ws(s@) as int]));
            }
        }
    }
    i
}

/// Number of trailing white-space characters.
pub fn trail_ws_len(s: &Vec<char>) -> (n: usize)
    ensures
        n == trail_ws(s@),
{
    let mut k: usize = 0;
    while k < s.len() && is_white_space_char(s[s.len() - 1 - k])
        invariant
            k <= s@.len(),
            forall|j: int| s@.len() - k <= j < s@.len() ==> is_white_space(s@[j]),
        decreases s@.len() - k,
    {
        k = k + 1;
    }
    proof {
        lemma_trail_ws_equal(s@, k as nat);
    }
    k
}

proof fn lemma_trail_ws_equal(s: Seq<char>, k: nat)
    requires
        k <= s.len(),
        forall|j: int| s.len() - k <= j < s.len() ==> is_white_space(s[j]),
        k < s.len() ==> !is_white_space(s[s.len() - 1 - k]),
    ensures
        trail_ws(s) == k,
    decreases k,
{
    if k > 0 {
        assert(is_white_space(s.last()));
        let t = s.drop_last();
        assert forall|j: int| t.len() - (k - 1) <= j < t.len() implies is_white_space(t[j]) by {
            assert(t[j] == s[j]);
        }
        if (k - 1) < t.len() {
            assert(t[t.len() - 1 - (k - 1)] == s[s.len() - 1 - k]);
        }
        lemma_trail_ws_equal(t, (k - 1) as nat);
    } else {
        if s.len() > 0 {
            assert(!is_white_space(s.last()));
        }
    }
}

/// `str::trim` on a character vector.
pub fn trim_chars(s: &Vec<char>) -> (r: Vec<char>)
    ensures
        r@ == trimmed(s@),
{
    let a = lead_ws_len(s);
    if a == s.len() {
        return Vec::new();
    }
    let b = trail_ws_len(s);
    proof {
        lemma_lead_ws_bound(s@);
        lemma_trail_ws_bound(s@);
        // the trailing run cannot reach into the first non-white-space character
        if a + b > s@.len() {
            assert(is_white_space(s@[a as int]));
        }
    }
    sub_chars(s, a, s.len() - b)
}

// ---------------------------------------------------------------------------
// Radix digits
// ---------------------------------------------------------------------------

/// The value of `c` as a digit of any radix up to 36 (`char::to_digit`), or
/// 36 and above when it is no such digit.
pub open spec fn digit_value(c: char) -> int {
    let u = c as u32;
    if '0' as u32 <= u <= '9' as u32 {
        u - '0' as u32
    } else if 'a' as u32 <= u <= 'z' as u32 {
        u - 'a' as u32 + 10
    } else if 'A' as u32 <= u <= 'Z' as u32 {
        u - 'A' as u32 + 10
    } else {
        36
    }
}

pub fn digit_value_of(c: char) -> (d: u32)
    ensures
        d == digit_value(c),
        d <= 36,
{
    let u = c as u32;
    if 48 <= u && u <= 57 {
        u - 48
    } else if 97 <= u && u <= 122 {
        u - 97 + 10
    } else if 65 <= u && u <= 90 {
        u - 65 + 10
    } else {
        36
    }
}

/// Whether every character of `s` is a digit of radix `b`.
pub open spec fn all_digits(s: Seq<char>, b: int) -> bool {
    forall|i: int| 0 <= i < s.len() ==> digit_value(#[trigger] s[i]) < b
}

/// The value of the digit string `s` in radix `b` (most significant first).
pub open spec fn digits_value(s: Seq<char>, b: int) -> int
    decreases s.len(),
{
    if s.len() == 0 {
        0
    } else {
        digits_value(s.drop_last(), b) * b + digit_value(s.last())
    }
}

/// The lowercase digit for a value below 16.
pub open spec fn digit_char(d: int) -> char {
    seq!['0', '1', '2', '3', '4', '5', '6', '7', '8', '9', 'a', 'b', 'c', 'd', 'e', 'f'][d]
}

pub fn digit_char_of(d: u64) -> (c: char)
    requires
        d < 16,
    ensures
        c == digit_char(d as int),
{
    let table: [char; 16] = ['0', '1', '2', '3', '4', '5', '6', '7', '8', '9', 'a', 'b', 'c', 'd', 'e', 'f'];
    assert(table@ =~= seq!['0', '1', '2', '3', '4', '5', '6', '7', '8', '9', 'a', 'b', 'c', 'd', 'e', 'f']);
    table[d as usize]
}

/// The digits of `n` in radix `b` without leading zeros ("0" for zero).
pub open spec fn digits_of(n: nat, b: nat) -> Seq<char>
    recommends
        2 <= b <= 16,
    decreases n,
{
    if n < b || b < 2 {
        seq![digit_char(n as int)]
    } else {
        proof {
            assert(n / b < n) by (nonlinear_arith)
                requires
                    n >= b,
                    b >= 2,
            ;
        }
        digits_of(n / b, b).push(digit_char((n % b) as int))
    }
}

pub proof fn lemma_digit_char_value(d: int)
    requires
        0 <= d < 16,
    ensures
        digit_value(digit_char(d)) == d,
{
    let s = seq!['0', '1', '2', '3', '4', '5', '6', '7', '8', '9', 'a', 'b', 'c', 'd', 'e', 'f'];
    assert(s[0] == '0' && s[1] == '1' && s[2] == '2' && s[3] == '3' && s[4] == '4');
    assert(s[5] == '5' && s[6] == '6' && s[7] == '7' && s[8] == '8' && s[9] == '9');
    assert(s[10] == 'a' && s[11] == 'b' && s[12] == 'c' && s[13] == 'd' && s[14] == 'e');
    assert(s[15] == 'f');
}

/// Reading back the digits of `n` gives `n`.
pub proof fn lemma_digits_roundtrip(n: nat, b: nat)
    requires
        2 <= b <= 16,
    ensures
        digits_value(digits_of(n, b), b as int) == n,
        all_digits(digits_of(n, b), b as int),
        digits_of(n, b).len() >= 1,
    decreases n,
{
    if n < b {
        lemma_digit_char_value(n as int);
        let s = digits_of(n, b);
        assert(s.drop_last() =~= Seq::<char>::empty());
        assert(s.last() == digit_char(n as int));
        assert(digits_value(s, b as int) == digits_value(s.drop_last(), b as int) * b + digit_value(s.last()));
    } else {
        assert(n / b < n) by (nonlinear_arith)
            requires
                n >= b,
                b >= 2,
        ;
        lemma_digits_roundtrip(n / b, b);
        lemma_digit_char_value((n % b) as int);
        let s = digits_of(n, b);
        assert(s.drop_last() =~= digits_of(n / b, b));
        assert(n == (n / b) * b + n % b) by (nonlinear_arith)
            requires b > 0;
        assert forall|i: int| 0 <= i < s.len() implies digit_value(#[trigger] s[i]) < b by {
            if i < s.len() - 1 {
                assert(s[i] == digits_of(n / b, b)[i]);
            }
        }
    }
}

/// Appends the digits of `n` in radix `b`.
pub fn push_digits(n: u64, b: u64, out: &mut Vec<char>)
    requires
        2 <= b <= 16,
    ensures
        final(out)@ == old(out)@ + digits_of(n as nat, b as nat),
    decreases n,
{
    if n >= b {
        assert(n / b < n) by (nonlinear_arith)
            requires
                n >= b,
                b >= 2,
        ;
        push_digits(n / b, b, out);
    }
    let c = digit_char_of(n % b);
    out.push(c);
    proof {
        let d = digits_of(n as nat, b as nat);
        if n >= b {
            assert(d == digits_of((n / b) as nat, b as nat).push(digit_char((n % b) as int)));
        } else {
            assert(d == seq![digit_char(n as int)]);
            assert((n % b) == n) by (nonlinear_arith)
                requires
                    n < b,
                    b >= 2,
            ;
        }
        assert(out@ =~= old(out)@ + d);
    }
}


// ---------------------------------------------------------------------------
// Signed integer parsing (`i64::from_str_radix`, `str::parse::<i64>`)
// ---------------------------------------------------------------------------

/// Why a numeral was rejected (the kinds of `std::num::ParseIntError`).
#[derive(PartialEq, Eq, Structural, Clone, Copy, Debug)]
pub enum IntErrorKind {
    Empty,
    InvalidDigit,
    PosOverflow,
    NegOverflow,
}

/// Reads the radix-`b` digits `d` from the left, adding each digit (or
/// subtracting it, for a negative numeral) after multiplying by `b`; the
/// first bad digit or the first step that leaves the `i64` range fails.
pub open spec fn scan_digits(d: Seq<char>, b: int, neg: bool) -> Result<int, IntErrorKind>
    decreases d.len(),
{
    if d.len() == 0 {
        Ok(0)
    } else {
        match scan_digits(d.drop_last(), b, neg) {
            Err(k) => Err(k),
            Ok(v) => {
                let x = digit_value(d.last());
                if x >= b {
                    Err(IntErrorKind::InvalidDigit)
                } else {
                    let w = if neg {
                        v * b - x
                    } else {
                        v * b + x
                    };
                    if w > i64::MAX {
                        Err(IntErrorKind::PosOverflow)
                    } else if w < i64::MIN {
                        Err(IntErrorKind::NegOverflow)
                    } else {
                        Ok(w)
                    }
                }
            }
        }
    }
}

/// `i64::from_str_radix`: an optional `+` or `-` followed by radix-`b` digits.
pub open spec fn from_str_radix_spec(s: Seq<char>, b: int) -> Result<int, IntErrorKind> {
    if s.len() == 0 {
        Err(IntErrorKind::Empty)
    } else if (s[0] == '+' || s[0] == '-') && s.len() == 1 {
        Err(IntErrorKind::InvalidDigit)
    } else if s[0] == '-' {
        scan_digits(s.drop_first(), b, true)
    } else if s[0] == '+' {
        scan_digits(s.drop_first(), b, false)
    } else {
        scan_digits(s, b, false)
    }
}

pub proof fn lemma_scan_bounds(d: Seq<char>, b: int, neg: bool)
    ensures
        scan_digits(d, b, neg) matches Ok(v) ==> i64::MIN <= v <= i64::MAX,
    decreases d.len(),
{
    if d.len() > 0 {
        lemma_scan_bounds(d.drop_last(), b, neg);
    }
}

/// Parses `s` the way `i64::from_str_radix(s, b)` does.
pub fn from_str_radix_i64(s: &Vec<char>, b: u32) -> (r: Result<i64, IntErrorKind>)
    requires
        2 <= b <= 36,
    ensures
        match from_str_radix_spec(s@, b as int) {
            Ok(v) => r == Ok::<i64, IntErrorKind>(v as i64) && i64::MIN <= v <= i64::MAX,
            Err(k) => r == Err::<i64, IntErrorKind>(k),
        },
{
    let n = s.len();
    if n == 0 {
        return Err(IntErrorKind::Empty);
    }
    if (s[0] == '+' || s[0] == '-') && n == 1 {
        return Err(IntErrorKind::InvalidDigit);
    }
    let neg = s[0] == '-';
    let start: usize = if s[0] == '-' || s[0] == '+' {
        1
    } else {
        0
    };
    let ghost digs = s@.subrange(start as int, n as int);
    proof {
        if start == 1 {
            assert(digs =~= s@.drop_first());
        } else {
            assert(digs =~= s@);
        }
        assert(from_str_radix_spec(s@, b as int) == scan_digits(digs, b as int, neg));
    }
    let mut acc: i128 = 0;
    let mut i: usize = start;
    while i < n
        invariant
            start <= i <= n == s@.len(),
            2 <= b <= 36,
            digs == s@.subrange(start as int, n as int),
            scan_digits(s@.subrange(start as int, i as int), b as int, neg) == Ok::<int, IntErrorKind>(
                acc as int,
            ),
            i64::MIN <= acc <= i64::MAX,
            from_str_radix_spec(s@, b as int) == scan_digits(digs, b as int, neg),
        decreases n - i,
    {
        let ghost pre = s@.subrange(start as int, i as int);
        let ghost nxt = s@.subrange(start as int, i + 1);
        assert(nxt.drop_last() =~= pre);
        assert(nxt.last() == s@[i as int]);
        let x = digit_value_of(s[i]);
        if x >= b {
            proof {
                assert(digs.subrange(0, i - start + 1) =~= nxt);
                assert(scan_digits(nxt, b as int, neg) == Err::<int, IntErrorKind>(
                    IntErrorKind::InvalidDigit,
                ));
                lemma_scan_prefix_err(digs, b as int, neg, i - start + 1);
            }
            return Err(IntErrorKind::InvalidDigit);
        }
        assert(-0x8000_0000_0000_0000 * 37 <= acc * (b as i128) <= 0x8000_0000_0000_0000 * 37) by (nonlinear_arith)
            requires
                i64::MIN <= acc <= i64::MAX,
                2 <= b <= 36,
        ;
        let w: i128 = if neg {
            acc * (b as i128) - (x as i128)
        } else {
            acc * (b as i128) + (x as i128)
        };
        if w > 0x7fff_ffff_ffff_ffff {
            proof {
                assert(digs.subrange(0, i - start + 1) =~= nxt);
                assert(scan_digits(nxt, b as int, neg) == Err::<int, IntErrorKind>(
                    IntErrorKind::PosOverflow,
                ));
                lemma_scan_prefix_err(digs, b as int, neg, i - start + 1);
            }
            return Err(IntErrorKind::PosOverflow);
        }
        if w < -0x8000_0000_0000_0000 {
            proof {
                assert(digs.subrange(0, i - start + 1) =~= nxt);
                assert(scan_digits(nxt, b as int, neg) == Err::<int, IntErrorKind>(
                    IntErrorKind::NegOverflow,
                ));
                lemma_scan_prefix_err(digs, b as int, neg, i - start + 1);
            }
            return Err(IntErrorKind::NegOverflow);
        }
        acc = w;
        i = i + 1;
    }
    assert(s@.subrange(start as int, n as int) =~= digs);
    Ok(acc as i64)
}

/// Reads the radix-`b` digits `d` (no sign) as a value of that sign, the way
/// `scan_digits` does.
pub fn scan_digits_i64(d: &Vec<char>, b: u32, neg: bool) -> (r: Result<i64, IntErrorKind>)
    requires
        2 <= b <= 36,
    ensures
        match scan_digits(d@, b as int, neg) {
            Ok(v) => r == Ok::<i64, IntErrorKind>(v as i64) && i64::MIN <= v <= i64::MAX,
            Err(k) => r == Err::<i64, IntErrorKind>(k),
        },
{
    let n = d.len();
    let mut acc: i128 = 0;
    let mut i: usize = 0;
    assert(d@.subrange(0, 0) =~= Seq::<char>::empty());
    while i < n
        invariant
            i <= n == d@.len(),
            2 <= b <= 36,
            scan_digits(d@.subrange(0, i as int), b as int, neg) == Ok::<int, IntErrorKind>(
                acc as int,
            ),
            i64::MIN <= acc <= i64::MAX,
        decreases n - i,
    {
        let ghost pre = d@.subrange(0, i as int);
        let ghost nxt = d@.subrange(0, i + 1);
        assert(nxt.drop_last() =~= pre);
        assert(nxt.last() == d@[i as int]);
        let x = digit_value_of(d[i]);
        if x >= b {
            proof {
                lemma_scan_prefix_err(d@, b as int, neg, i + 1);
            }
            return Err(IntErrorKind::InvalidDigit);
        }
        assert(-0x8000_0000_0000_0000 * 37 <= acc * (b as i128) <= 0x8000_0000_0000_0000 * 37) by (nonlinear_arith)
            requires
                i64::MIN <= acc <= i64::MAX,
                2 <= b <= 36,
        ;
        let w: i128 = if neg {
            acc * (b as i128) - (x as i128)
        } else {
            acc * (b as i128) + (x as i128)
        };
        if w > 0x7fff_ffff_ffff_ffff {
            proof {
                lemma_scan_prefix_err(d@, b as int, neg, i + 1);
            }
            return Err(IntErrorKind::PosOverflow);
        }
        if w < -0x8000_0000_0000_0000 {
            proof {
                lemma_scan_prefix_err(d@, b as int, neg, i + 1);
            }
            return Err(IntErrorKind::NegOverflow);
        }
        acc = w;
        i = i + 1;
    }
    assert(d@.subrange(0, n as int) =~= d@);
    Ok(acc as i64)
}

/// Once a prefix of the digits fails, the whole numeral fails the same way.
pub proof fn lemma_scan_prefix_err(d: Seq<char>, b: int, neg: bool, j: int)
    requires
        0 <= j <= d.len(),
        scan_digits(d.subrange(0, j), b, neg) is Err,
    ensures
        scan_digits(d, b, neg) == scan_digits(d.subrange(0, j), b, neg),
    decreases d.len() - j,
{
    if j < d.len() {
        let t = d.subrange(0, j + 1);
        assert(t.drop_last() =~= d.subrange(0, j));
        lemma_scan_prefix_err(d, b, neg, j + 1);
    } else {
        assert(d.subrange(0, j) =~= d);
    }
}


pub proof fn lemma_digits_value_nonneg(s: Seq<char>, b: int)
    requires
        b >= 1,
        all_digits(s, b),
    ensures
        digits_value(s, b) >= 0,
    decreases s.len(),
{
    if s.len() > 0 {
        assert(all_digits(s.drop_last(), b)) by {
            assert forall|i: int| 0 <= i < s.drop_last().len() implies digit_value(
                #[trigger] s.drop_last()[i],
            ) < b by {
                assert(s.drop_last()[i] == s[i]);
            }
        }
        lemma_digits_value_nonneg(s.drop_last(), b);
        assert(digit_value(s[s.len() - 1]) >= 0);
        assert(digits_value(s.drop_last(), b) * b >= 0) by (nonlinear_arith)
            requires
                digits_value(s.drop_last(), b) >= 0,
                b >= 1,
        ;
    }
}

/// A digit string is worth at least any of its prefixes.
pub proof fn lemma_digits_value_prefix(s: Seq<char>, b: int, j: int)
    requires
        b >= 1,
        all_digits(s, b),
        0 <= j <= s.len(),
    ensures
        digits_value(s, b) >= digits_value(s.subrange(0, j), b),
    decreases s.len() - j,
{
    if j < s.len() {
        let t = s.subrange(0, j + 1);
        assert(t.drop_last() =~= s.subrange(0, j));
        let p = digits_value(s.subrange(0, j), b);
        assert(all_digits(s.subrange(0, j), b)) by {
            assert forall|i: int| 0 <= i < j implies digit_value(#[trigger] s.subrange(0, j)[i])
                < b by {
                assert(s.subrange(0, j)[i] == s[i]);
            }
        }
        lemma_digits_value_nonneg(s.subrange(0, j), b);
        assert(digit_value(t.last()) >= 0);
        assert(p * b >= p) by (nonlinear_arith)
            requires
                p >= 0,
                b >= 1,
        ;
        lemma_digits_value_prefix(s, b, j + 1);
    } else {
        assert(s.subrange(0, j) =~= s);
    }
}

/// A digit string within range scans to its value (negated for a negative numeral).
pub proof fn lemma_scan_value(d: Seq<char>, b: int, neg: bool)
    requires
        2 <= b,
        all_digits(d, b),
        neg ==> digits_value(d, b) <= 0x8000_0000_0000_0000,
        !neg ==> digits_value(d, b) <= 0x7fff_ffff_ffff_ffff,
    ensures
        scan_digits(d, b, neg) == Ok::<int, IntErrorKind>(
            if neg {
                -digits_value(d, b)
            } else {
                digits_value(d, b)
            },
        ),
    decreases d.len(),
{
    if d.len() > 0 {
        let t = d.drop_last();
        assert(t =~= d.subrange(0, d.len() - 1));
        lemma_digits_value_prefix(d, b, d.len() - 1);
        assert(all_digits(t, b)) by {
            assert forall|i: int| 0 <= i < t.len() implies digit_value(#[trigger] t[i]) < b by {
                assert(t[i] == d[i]);
            }
        }
        lemma_scan_value(t, b, neg);
        assert(digit_value(d[d.len() - 1]) < b);
        assert(d.last() == d[d.len() - 1]);
        let v = digits_value(t, b);
        assert((-v) * b == -(v * b)) by (nonlinear_arith);
        assert(digits_value(d, b) == v * b + digit_value(d.last()));
    }
}

/// The decimal text of an integer, with a leading `-` when negative (`i64::to_string`).
pub open spec fn signed_decimal(n: int) -> Seq<char> {
    if n < 0 {
        seq!['-'] + digits_of((-n) as nat, 10)
    } else {
        digits_of(n as nat, 10)
    }
}

proof fn lemma_first_digit_not_sign(n: nat, b: nat)
    requires
        2 <= b <= 16,
    ensures
        digits_of(n, b)[0] != '-',
        digits_of(n, b)[0] != '+',
{
    lemma_digits_roundtrip(n, b);
    assert(digit_value(digits_of(n, b)[0]) < b);
}

/// Parsing the decimal text of an `i64` gives the number back.
pub proof fn law_decimal_readback(n: int)
    requires
        i64::MIN <= n <= i64::MAX,
    ensures
        from_str_radix_spec(signed_decimal(n), 10) == Ok::<int, IntErrorKind>(n),
{
    if n < 0 {
        let m = (-n) as nat;
        lemma_digits_roundtrip(m, 10);
        let s = signed_decimal(n);
        assert(s.drop_first() =~= digits_of(m, 10));
        lemma_scan_value(digits_of(m, 10), 10, true);
    } else {
        lemma_digits_roundtrip(n as nat, 10);
        lemma_first_digit_not_sign(n as nat, 10);
        lemma_scan_value(digits_of(n as nat, 10), 10, false);
    }
}

/// The radix-`b` digits of `n` as a vector.
pub fn digits_vec(n: u64, b: u64) -> (r: Vec<char>)
    requires
        2 <= b <= 16,
    ensures
        r@ == digits_of(n as nat, b as nat),
{
    let mut r: Vec<char> = Vec::new();
    push_digits(n, b, &mut r);
    assert(r@ =~= digits_of(n as nat, b as nat));
    r
}

/// The decimal text of `n` (`i64::to_string`).
pub fn signed_decimal_vec(n: i64) -> (r: Vec<char>)
    ensures
        r@ == signed_decimal(n as int),
{
    let mut r: Vec<char> = Vec::new();
    if n < 0 {
        r.push('-');
        let m: u64 = (0i128 - (n as i128)) as u64;
        push_digits(m, 10, &mut r);
    } else {
        push_digits(n as u64, 10, &mut r);
    }
    assert(r@ =~= signed_decimal(n as int));
    r
}

/// `s` left-padded with `0` to at least `w` characters (the `{:0w$}` format).
pub open spec fn zero_padded(s: Seq<char>, w: int) -> Seq<char> {
    if s.len() >= w {
        s
    } else {
        Seq::new((w - s.len()) as nat, |i: int| '0') + s
    }
}

pub fn zero_pad(s: &Vec<char>, w: usize) -> (r: Vec<char>)
    ensures
        r@ == zero_padded(s@, w as int),
{
    let mut r: Vec<char> = Vec::new();
    if s.len() < w {
        let k = w - s.len();
        let mut i: usize = 0;
        while i < k
            invariant
                i <= k,
                r@ == Seq::new(i as nat, |j: int| '0'),
            decreases k - i,
        {
            r.push('0');
            i = i + 1;
            assert(r@ =~= Seq::new(i as nat, |j: int| '0'));
        }
    }
    append_chars(&mut r, s);
    assert(r@ =~= zero_padded(s@, w as int));
    r
}


/// Whether two character vectors are equal.
pub fn same_chars(a: &Vec<char>, b: &Vec<char>) -> (r: bool)
    ensures
        r == (a@ == b@),
{
    if a.len() != b.len() {
        return false;
    }
    let r = starts_with(a, b);
    if r {
        assert(a@ =~= b@);
    } else {
        assert(a@.subrange(0, b@.len() as int) =~= a@);
    }
    r
}

/// Whether the characters `v` spell `s`.
pub fn equals_text(v: &Vec<char>, s: &str) -> (r: bool)
    ensures
        r == (v@ == s@),
{
    let w = chars_of(s);
    same_chars(v, &w)
}

} // verus!
