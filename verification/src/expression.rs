//! Text handling around the expression evaluator and the computer-algebra
//! tools: rewriting Python-style input (`**` for powers, `log(` for the
//! two-argument logarithm, list brackets), forming `left - right` from an
//! equation, tidying solutions and `Integer(n)` wrappers; and the integer
//! helpers of the evaluator (factorial, integer square root).
use crate::text::{append_chars, chars_of, count_char, count_occurrences, string_from_chars,
    sub_chars, trim_chars, trimmed, equals_text};
use vstd::prelude::*;

verus! {

// ===== Replacing text =====

/// Whether `pat` occurs in `s` at position `i`.
pub open spec fn occurs_at(s: Seq<char>, pat: Seq<char>, i: int) -> bool {
    0 <= i && i + pat.len() <= s.len() && s.subrange(i, i + pat.len()) == pat
}

/// `s` with every occurrence of the non-empty `pat` replaced by `rep`,
/// scanning from the left and never overlapping (`str::replace`).
pub open spec fn replaced(s: Seq<char>, pat: Seq<char>, rep: Seq<char>) -> Seq<char>
    decreases s.len(),
{
    if pat.len() == 0 || s.len() < pat.len() {
        s
    } else if occurs_at(s, pat, 0) {
        rep + replaced(s.subrange(pat.len() as int, s.len() as int), pat, rep)
    } else {
        seq![s[0]] + replaced(s.drop_first(), pat, rep)
    }
}

fn occurs_at_exec(s: &Vec<char>, pat: &Vec<char>, i: usize) -> (r: bool)
    requires
        i <= s@.len(),
    ensures
        r == occurs_at(s@, pat@, i as int),
{
    if pat.len() > s.len() - i {
        return false;
    }
    let mut k: usize = 0;
    while k < pat.len()
        invariant
            s@.len() <= usize::MAX,
            i + pat@.len() <= s@.len(),
            k <= pat@.len(),
            forall|j: int| 0 <= j < k ==> s@[i + j] == pat@[j],
        decreases pat@.len() - k,
    {
        assert(i + k < s@.len());
        if s[i + k] != pat[k] {
            assert(s@.subrange(i as int, i + pat@.len())[k as int] != pat@[k as int]);
            return false;
        }
        k = k + 1;
    }
    assert(s@.subrange(i as int, i + pat@.len()) =~= pat@);
    true
}

proof fn lemma_replaced_suffix(s: Seq<char>, pat: Seq<char>, rep: Seq<char>, i: int)
    requires
        pat.len() > 0,
        0 <= i < s.len(),
    ensures
        occurs_at(s, pat, i) ==> replaced(s.subrange(i, s.len() as int), pat, rep) == rep
            + replaced(s.subrange(i + pat.len(), s.len() as int), pat, rep),
        !occurs_at(s, pat, i) ==> replaced(s.subrange(i, s.len() as int), pat, rep) == seq![s[i]]
            + replaced(s.subrange(i + 1, s.len() as int), pat, rep),
{
    let t = s.subrange(i, s.len() as int);
    assert(occurs_at(s, pat, i) == occurs_at(t, pat, 0)) by {
        if i + pat.len() <= s.len() {
            assert(t.subrange(0, pat.len() as int) =~= s.subrange(i, i + pat.len()));
        }
    }
    if occurs_at(s, pat, i) {
        assert(t.subrange(pat.len() as int, t.len() as int) =~= s.subrange(
            i + pat.len(),
            s.len() as int,
        ));
    } else {
        assert(t.drop_first() =~= s.subrange(i + 1, s.len() as int));
    }
}

/// Replaces every occurrence of `pat` (not empty) in `s` by `rep`.
pub fn replace_all(s: &Vec<char>, pat: &Vec<char>, rep: &Vec<char>) -> (r: Vec<char>)
    requires
        pat@.len() > 0,
    ensures
        r@ == replaced(s@, pat@, rep@),
{
    let mut out: Vec<char> = Vec::new();
    let mut i: usize = 0;
    assert(s@.subrange(0, s@.len() as int) =~= s@);
    assert(out@ + replaced(s@, pat@, rep@) =~= replaced(s@, pat@, rep@));
    while i < s.len()
        invariant
            pat@.len() > 0,
            i <= s@.len(),
            out@ + replaced(s@.subrange(i as int, s@.len() as int), pat@, rep@) == replaced(
                s@,
                pat@,
                rep@,
            ),
        decreases s@.len() - i,
    {
        proof {
            lemma_replaced_suffix(s@, pat@, rep@, i as int);
        }
        if occurs_at_exec(s, pat, i) {
            let ghost before = out@;
            append_chars(&mut out, rep);
            proof {
                assert(out@ + replaced(s@.subrange(i + pat@.len(), s@.len() as int), pat@, rep@)
                    =~= before + (rep@ + replaced(
                    s@.subrange(i + pat@.len(), s@.len() as int),
                    pat@,
                    rep@,
                )));
            }
            i = i + pat.len();
        } else {
            let ghost before = out@;
            out.push(s[i]);
            proof {
                assert(out@ + replaced(s@.subrange(i + 1, s@.len() as int), pat@, rep@) =~= before
                    + (seq![s@[i as int]] + replaced(
                    s@.subrange(i + 1, s@.len() as int),
                    pat@,
                    rep@,
                )));
            }
            i = i + 1;
        }
    }
    proof {
        assert(s@.subrange(i as int, s@.len() as int) =~= Seq::<char>::empty());
        assert(out@ + Seq::<char>::empty() =~= out@);
    }
    out
}

fn replace_text(s: &Vec<char>, pat: &str, rep: &str) -> (r: Vec<char>)
    requires
        pat@.len() > 0,
    ensures
        r@ == replaced(s@, pat@, rep@),
{
    let p = chars_of(pat);
    let q = chars_of(rep);
    replace_all(s, &p, &q)
}

/// `s` without `[` and `]`.
pub open spec fn without_brackets(s: Seq<char>) -> Seq<char>
    decreases s.len(),
{
    if s.len() == 0 {
        s
    } else if s.last() == '[' || s.last() == ']' {
        without_brackets(s.drop_last())
    } else {
        without_brackets(s.drop_last()).push(s.last())
    }
}

fn drop_brackets(s: &Vec<char>) -> (r: Vec<char>)
    ensures
        r@ == without_brackets(s@),
{
    let mut out: Vec<char> = Vec::new();
    let mut i: usize = 0;
    while i < s.len()
        invariant
            i <= s@.len(),
            out@ == without_brackets(s@.subrange(0, i as int)),
        decreases s@.len() - i,
    {
        let c = s[i];
        proof {
            assert(s@.subrange(0, i + 1).drop_last() =~= s@.subrange(0, i as int));
        }
        if c != '[' && c != ']' {
            out.push(c);
        }
        i = i + 1;
    }
    assert(s@.subrange(0, s@.len() as int) =~= s@);
    out
}

// ===== Preparing expressions =====

/// Python's `**` written as `^`.
pub open spec fn power_notation(s: Seq<char>) -> Seq<char> {
    replaced(s, "**"@, "^"@)
}

/// What the evaluator is handed: `**` as `^`, `log(` as `_pylog(` (Python's
/// argument order), and list brackets removed so `mean([1,2])` is a call.
pub open spec fn evaluator_input(s: Seq<char>) -> Seq<char> {
    without_brackets(replaced(power_notation(s), "log("@, "_pylog("@))
}

/// Writes `**` as `^` (the notation of the algebra crates).
pub fn to_power_notation(expression: &str) -> (r: String)
    ensures
        r@ == power_notation(expression@),
{
    proof {
        reveal_strlit("**");
    }
    let s = chars_of(expression);
    let t = replace_text(&s, "**", "^");
    string_from_chars(&t)
}

/// Rewrites an expression for the evaluator.
pub fn prepare_expression(expression: &str) -> (r: String)
    ensures
        r@ == evaluator_input(expression@),
{
    proof {
        reveal_strlit("**");
        reveal_strlit("log(");
    }
    let s = chars_of(expression);
    let t = replace_text(&s, "**", "^");
    let u = replace_text(&t, "log(", "_pylog(");
    let v = drop_brackets(&u);
    string_from_chars(&v)
}

// ===== Equations =====

/// The index of the first `c` in `s`.
pub open spec fn first_index(s: Seq<char>, c: char) -> int
    recommends
        s.contains(c),
    decreases s.len(),
{
    if s.len() == 0 || s[0] == c {
        0
    } else {
        1 + first_index(s.drop_first(), c)
    }
}

proof fn lemma_first_index(s: Seq<char>, c: char)
    requires
        s.contains(c),
    ensures
        0 <= first_index(s, c) < s.len(),
        s[first_index(s, c)] == c,
        forall|j: int| 0 <= j < first_index(s, c) ==> s[j] != c,
    decreases s.len(),
{
    if s[0] != c {
        let k = choose|k: int| 0 <= k < s.len() && s[k] == c;
        assert(s.drop_first()[k - 1] == c);
        lemma_first_index(s.drop_first(), c);
        assert forall|j: int| 0 <= j < first_index(s, c) implies s[j] != c by {
            if j > 0 {
                assert(s[j] == s.drop_first()[j - 1]);
            }
        }
    }
}

pub open spec fn no_single_equals_message() -> Seq<char> {
    "Equation must contain an '=' sign"@
}

/// `left = right` as the expression `(left) - (right)` (both sides trimmed,
/// `**` as `^`) that the solver sets to zero; there must be exactly one `=`.
pub open spec fn equation_form(eq: Seq<char>) -> Result<Seq<char>, Seq<char>> {
    if count_char(eq, '=') != 1 {
        Err(no_single_equals_message())
    } else {
        let k = first_index(eq, '=');
        let left = trimmed(eq.subrange(0, k));
        let right = trimmed(eq.subrange(k + 1, eq.len() as int));
        Ok(power_notation("("@ + left + ") - ("@ + right + ")"@))
    }
}

pub open spec fn string_result_view(r: Result<String, String>) -> Result<Seq<char>, Seq<char>> {
    match r {
        Ok(v) => Ok(v@),
        Err(e) => Err(e@),
    }
}

proof fn lemma_count_char_contains(s: Seq<char>, c: char)
    requires
        count_char(s, c) > 0,
    ensures
        s.contains(c),
    decreases s.len(),
{
    if s.len() > 0 && s.last() != c {
        lemma_count_char_contains(s.drop_last(), c);
        let k = choose|k: int| 0 <= k < s.drop_last().len() && s.drop_last()[k] == c;
        assert(s[k] == c);
    } else if s.len() > 0 {
        assert(s[s.len() - 1] == c);
    }
}

/// Turns an equation into the expression the solver sets to zero.
pub fn equation_expression(equation: &str) -> (r: Result<String, String>)
    ensures
        string_result_view(r) == equation_form(equation@),
{
    let s = chars_of(equation);
    if count_occurrences(&s, '=') != 1 {
        return Err("Equation must contain an '=' sign".to_owned());
    }
    proof {
        lemma_count_char_contains(s@, '=');
        lemma_first_index(s@, '=');
        reveal_strlit("**");
    }
    let n = s.len();
    let mut k: usize = 0;
    while s[k] != '='
        invariant
            s@.len() <= usize::MAX,
            k <= first_index(s@, '='),
            first_index(s@, '=') < s@.len(),
            s@[first_index(s@, '=')] == '=',
            forall|j: int| 0 <= j < first_index(s@, '=') ==> s@[j] != '=',
        decreases first_index(s@, '=') - k,
    {
        k = k + 1;
    }
    let left = trim_chars(&sub_chars(&s, 0, k));
    let right = trim_chars(&sub_chars(&s, k + 1, s.len()));
    let mut e = chars_of("(");
    append_chars(&mut e, &left);
    let mid = chars_of(") - (");
    append_chars(&mut e, &mid);
    append_chars(&mut e, &right);
    let close = chars_of(")");
    append_chars(&mut e, &close);
    let t = replace_text(&e, "**", "^");
    Ok(string_from_chars(&t))
}

/// `-0` and `-0.0` shown as `0`.
pub open spec fn tidy_solution(s: Seq<char>) -> Seq<char> {
    if s == "-0"@ || s == "-0.0"@ {
        "0"@
    } else {
        s
    }
}

/// Shows a negative zero among the solutions as `0`.
pub fn normalize_solution(s: String) -> (r: String)
    ensures
        r@ == tidy_solution(s@),
{
    let v = chars_of(s.as_str());
    if equals_text(&v, "-0") || equals_text(&v, "-0.0") {
        "0".to_owned()
    } else {
        s
    }
}

// ===== Integer(n) wrappers =====

/// The first position at or after `i` where `pat` occurs.
pub open spec fn find_from(s: Seq<char>, pat: Seq<char>, i: int) -> Option<int>
    decreases s.len() + 1 - i,
{
    if i < 0 || i + pat.len() > s.len() {
        None
    } else if occurs_at(s, pat, i) {
        Some(i)
    } else {
        find_from(s, pat, i + 1)
    }
}

/// The text with `Integer(` ... `)` wrappers removed one by one, leftmost
/// first, each up to the first `)` after it; a wrapper without a closing
/// `)` stops the cleaning.
pub open spec fn unwrapped_integers(s: Seq<char>) -> Seq<char>
    decreases s.len(),
{
    let p = "Integer("@;
    match find_from(s, p, 0) {
        None => s,
        Some(start) => {
            let rest = s.subrange(start + p.len(), s.len() as int);
            match find_from(rest, seq![')'], 0) {
                None => s,
                Some(end) => if 0 <= start && start + p.len() + end < s.len() && 0 <= end {
                    unwrapped_integers(
                        s.subrange(0, start) + rest.subrange(0, end) + rest.subrange(
                            end + 1,
                            rest.len() as int,
                        ),
                    )
                } else {
                    s
                },
            }
        },
    }
}

proof fn lemma_find_from(s: Seq<char>, pat: Seq<char>, i: int)
    requires
        0 <= i,
    ensures
        find_from(s, pat, i) matches Some(k) ==> i <= k && occurs_at(s, pat, k) && k + pat.len()
            <= s.len(),
        find_from(s, pat, i) is None ==> forall|k: int| i <= k ==> !#[trigger] occurs_at(s, pat, k),
    decreases s.len() + 1 - i,
{
    if i + pat.len() <= s.len() && !occurs_at(s, pat, i) {
        lemma_find_from(s, pat, i + 1);
        if find_from(s, pat, i) is None {
            assert forall|k: int| i <= k implies !#[trigger] occurs_at(s, pat, k) by {
                if k > i {
                    assert(!occurs_at(s, pat, k));
                }
            }
        }
    }
}

fn find_exec(s: &Vec<char>, pat: &Vec<char>, from: usize) -> (r: Option<usize>)
    requires
        from <= s@.len(),
        pat@.len() > 0,
    ensures
        r matches Some(k) ==> find_from(s@, pat@, from as int) == Some(k as int),
        r is None ==> find_from(s@, pat@, from as int) is None,
{
    let mut i = from;
    while pat.len() <= s.len() - i
        invariant
            pat@.len() > 0,
            from <= i <= s@.len(),
            find_from(s@, pat@, from as int) == find_from(s@, pat@, i as int),
        decreases s@.len() - i,
    {
        if occurs_at_exec(s, pat, i) {
            return Some(i);
        }
        i = i + 1;
    }
    None
}

/// Removes the `Integer(n)` wrappers from an expression's text, leaving `n`.
pub fn clean_mathhook_display(s: &str) -> (r: String)
    ensures
        r@ == unwrapped_integers(s@),
{
    let mut cur = chars_of(s);
    let pat = chars_of("Integer(");
    let close = vec![')'];
    proof {
        reveal_strlit("Integer(");
        assert(close@ =~= seq![')']);
    }
    loop
        invariant
            pat@ == "Integer("@,
            pat@.len() == 8,
            close@ == seq![')'],
            unwrapped_integers(cur@) == unwrapped_integers(s@),
        ensures
            cur@ == unwrapped_integers(s@),
        decreases cur@.len(),
    {
        proof {
            lemma_find_from(cur@, pat@, 0);
        }
        let start = match find_exec(&cur, &pat, 0) {
            Some(k) => k,
            None => {
                break;
            },
        };
        let n = cur.len();
        let rest = sub_chars(&cur, start + 8, n);
        proof {
            lemma_find_from(rest@, close@, 0);
        }
        let end = match find_exec(&rest, &close, 0) {
            Some(k) => k,
            None => {
                break;
            },
        };
        let mut next = sub_chars(&cur, 0, start);
        let num = sub_chars(&rest, 0, end);
        append_chars(&mut next, &num);
        let after = sub_chars(&rest, end + 1, rest.len());
        append_chars(&mut next, &after);
        proof {
            assert(next@ =~= cur@.subrange(0, start as int) + rest@.subrange(0, end as int)
                + rest@.subrange(end + 1, rest@.len() as int));
        }
        cur = next;
    }
    string_from_chars(&cur)
}

// ===== Integer helpers of the evaluator =====

pub open spec fn factorial(n: nat) -> nat
    decreases n,
{
    if n == 0 {
        1
    } else {
        n * factorial((n - 1) as nat)
    }
}

/// `n!` for `n` up to 20 (the largest that fits in `u64`).
pub fn factorial_u64(n: u64) -> (r: u64)
    requires
        n <= 20,
    ensures
        r == factorial(n as nat),
{
    let mut result: u64 = 1;
    let mut i: u64 = 1;
    while i <= n
        invariant
            1 <= i <= n + 1,
            n <= 20,
            result == factorial((i - 1) as nat),
        decreases n + 1 - i,
    {
        proof {
            lemma_factorial_bound((i - 1) as nat);
            assert(factorial(i as nat) == i * factorial((i - 1) as nat));
            let f = factorial((i - 1) as nat);
            assert(result * i == i * f && result * i <= 20 * 121645100408832000) by (nonlinear_arith)
                requires
                    i <= 20,
                    result == f,
                    f <= 121645100408832000,
            ;
        }
        result = result * i;
        i = i + 1;
    }
    result
}

proof fn lemma_factorial_monotone(a: nat, b: nat)
    requires
        a <= b,
    ensures
        factorial(a) <= factorial(b),
    decreases b - a,
{
    if a < b {
        lemma_factorial_monotone(a, (b - 1) as nat);
        assert(factorial((b - 1) as nat) <= b * factorial((b - 1) as nat)) by (nonlinear_arith)
            requires
                b >= 1,
        ;
    }
}

proof fn lemma_factorial_bound(n: nat)
    requires
        n <= 19,
    ensures
        factorial(n) <= 121645100408832000,
{
    lemma_factorial_monotone(n, 19);
    assert(factorial(0) == 1);
    assert(factorial(1) == 1);
    assert(factorial(2) == 2);
    assert(factorial(3) == 6);
    assert(factorial(4) == 24);
    assert(factorial(5) == 120);
    assert(factorial(6) == 720);
    assert(factorial(7) == 5040);
    assert(factorial(8) == 40320);
    assert(factorial(9) == 362880);
    assert(factorial(10) == 3628800);
    assert(factorial(11) == 39916800);
    assert(factorial(12) == 479001600);
    assert(factorial(13) == 6227020800);
    assert(factorial(14) == 87178291200);
    assert(factorial(15) == 1307674368000);
    assert(factorial(16) == 20922789888000);
    assert(factorial(17) == 355687428096000);
    assert(factorial(18) == 6402373705728000);
    assert(factorial(19) == 121645100408832000);
}

/// The integer square root of `val`: the largest `x` with `x * x <= val`,
/// found by binary search.
pub fn integer_sqrt(val: u64) -> (r: u64)
    ensures
        r * r <= val < (r + 1) * (r + 1),
{
    if val == 0 {
        assert(0 * 0 <= val < (0 + 1) * (0 + 1));
        return 0;
    }
    let mut low: u64 = 1;
    let mut high: u64 = val;
    assert(val < (val + 1) * (val + 1)) by (nonlinear_arith)
        requires
            val >= 1,
    ;
    while low <= high
        invariant
            1 <= low,
            high <= val,
            low <= high + 1,
            (low - 1) * (low - 1) <= val,
            val < (high + 1) * (high + 1),
        decreases high - low + 1,
    {
        let mid = low + (high - low) / 2;
        // a square beyond `u64` is beyond `val` too
        let above = match mid.checked_mul(mid) {
            Some(q) => {
                if q == val {
                    assert(val < (mid + 1) * (mid + 1)) by (nonlinear_arith)
                        requires
                            mid * mid == val,
                    ;
                    return mid;
                }
                q > val
            },
            None => true,
        };
        if !above {
            assert(mid < val) by (nonlinear_arith)
                requires
                    mid * mid < val,
                    mid >= 1,
            ;
            low = mid + 1;
        } else {
            high = mid - 1;
        }
    }
    high
}

// ===== Requests =====

/// A request to evaluate an expression (`**` for powers).
#[derive(Debug)]
pub struct CalculateRequest {
    pub expression: String,
}

/// A request for a derivative, by `variable` (`x` when absent).
#[derive(Debug)]
pub struct DifferentiateRequest {
    pub expression: String,
    pub variable: Option<String>,
}

/// A request for an indefinite integral, by `variable` (`x` when absent).
#[derive(Debug)]
pub struct IntegrateRequest {
    pub expression: String,
    pub variable: Option<String>,
}

/// A request to solve an equation with exactly one `=` for `x`.
#[derive(Debug)]
pub struct SolveEquationRequest {
    pub equation: String,
}

/// A request to expand an expression.
#[derive(Debug)]
pub struct ExpandRequest {
    pub expression: String,
}

/// A request to sum an expression in `x` over `start..=end` (0 and 10 when absent).
#[derive(Debug)]
pub struct SummationRequest {
    pub expression: String,
    pub start: Option<i64>,
    pub end: Option<i64>,
}

/// A request to plot an expression in `x` over `start..=end` (-10 and 10
/// when absent) at `step` points (100 when absent).
#[derive(Debug)]
pub struct PlotRequest {
    pub expression: String,
    pub start: Option<i64>,
    pub end: Option<i64>,
    pub step: Option<i64>,
}

} // verus!
