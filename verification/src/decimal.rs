//! Exact comparison of decimal strings such as `"500"`, `"500.00"` or
//! `"-0.25"`, used for the numeric bounds of a scope.
//!
//! A string is read as an optional sign followed either by one of the
//! special words `inf`, `infinity` or `nan` (ASCII case-insensitive) or by
//! a plain decimal: ASCII digits with at most one `.`, and at least one
//! digit in all. Plain decimals are compared by their exact rational
//! value. In `decimal_le(a, b)` an unreadable `a` counts as positive
//! infinity and an unreadable `b` as negative infinity, so an unreadable
//! value never passes a bound; `nan` is incomparable to everything.
//!
//! The grammar is narrower than that of a float parser: exponent
//! notation such as `1e3` is not read (so it never passes a bound), and
//! values are compared exactly, never rounded to binary floating point.

use vstd::prelude::*;

use crate::text::chars_of;

verus! {

// ---------------------------------------------------------------------------
// The mathematical model
// ---------------------------------------------------------------------------

/// A read decimal: the extended reals restricted to decimal fractions.
pub enum ExtDecimal {
    NaN,
    NegInf,
    /// `num / 10^scale`.
    Finite { num: int, scale: nat },
    PosInf,
}

/// `10^k`.
pub open spec fn pow10(k: nat) -> int
    decreases k,
{
    if k == 0 { 1 } else { 10 * pow10((k - 1) as nat) }
}

pub open spec fn is_digit(c: char) -> bool {
    '0' <= c && c <= '9'
}

pub open spec fn all_digits(s: Seq<char>) -> bool {
    forall|i: int| 0 <= i < s.len() ==> is_digit(#[trigger] s[i])
}

pub open spec fn digit_value(c: char) -> int {
    (c as int) - ('0' as int)
}

/// The natural number written by the digit string `s` (leading zeros
/// allowed; the empty string is 0).
pub open spec fn digits_value(s: Seq<char>) -> int
    decreases s.len(),
{
    if s.len() == 0 {
        0
    } else {
        digits_value(s.drop_last()) * 10 + digit_value(s.last())
    }
}

pub open spec fn ascii_lower(c: char) -> char {
    if 'A' <= c && c <= 'Z' {
        ((c as u32) + 32) as char
    } else {
        c
    }
}

/// `s` equals the lower-case word `w` ignoring ASCII case.
pub open spec fn eq_ignore_case(s: Seq<char>, w: Seq<char>) -> bool {
    s.len() == w.len() && forall|i: int| 0 <= i < s.len() ==> ascii_lower(#[trigger] s[i]) == w[i]
}

pub open spec fn word_inf() -> Seq<char> {
    seq!['i', 'n', 'f']
}

pub open spec fn word_infinity() -> Seq<char> {
    seq!['i', 'n', 'f', 'i', 'n', 'i', 't', 'y']
}

pub open spec fn word_nan() -> Seq<char> {
    seq!['n', 'a', 'n']
}

/// Whether `s` starts with a sign character.
pub open spec fn has_sign(s: Seq<char>) -> bool {
    s.len() > 0 && (s[0] == '+' || s[0] == '-')
}

/// Whether `s` starts with a minus sign.
pub open spec fn is_negative(s: Seq<char>) -> bool {
    s.len() > 0 && s[0] == '-'
}

/// `s` without its leading sign, if any.
pub open spec fn unsigned_part(s: Seq<char>) -> Seq<char> {
    if has_sign(s) { s.drop_first() } else { s }
}

/// Index of the first `.` in `s`, or `s.len()` when there is none.
pub open spec fn dot_index(s: Seq<char>) -> int
    decreases s.len(),
{
    if s.len() == 0 {
        0
    } else if s[0] == '.' {
        0
    } else {
        1 + dot_index(s.drop_first())
    }
}

/// Integer part of an unsigned plain decimal.
pub open spec fn integer_digits(u: Seq<char>) -> Seq<char> {
    u.take(dot_index(u))
}

/// Fractional part of an unsigned plain decimal (empty without a dot).
pub open spec fn fraction_digits(u: Seq<char>) -> Seq<char> {
    if dot_index(u) < u.len() { u.skip(dot_index(u) + 1) } else { Seq::empty() }
}

/// Whether the unsigned part is a plain decimal.
pub open spec fn is_plain_decimal(u: Seq<char>) -> bool {
    &&& all_digits(integer_digits(u))
    &&& all_digits(fraction_digits(u))
    &&& integer_digits(u).len() + fraction_digits(u).len() >= 1
}

/// How `s` reads, or `None` when it is not a decimal at all.
pub open spec fn read_decimal(s: Seq<char>) -> Option<ExtDecimal> {
    let u = unsigned_part(s);
    if eq_ignore_case(u, word_inf()) || eq_ignore_case(u, word_infinity()) {
        Some(if is_negative(s) { ExtDecimal::NegInf } else { ExtDecimal::PosInf })
    } else if eq_ignore_case(u, word_nan()) {
        Some(ExtDecimal::NaN)
    } else if is_plain_decimal(u) {
        let m = digits_value(integer_digits(u) + fraction_digits(u));
        Some(ExtDecimal::Finite {
            num: if is_negative(s) { -m } else { m },
            scale: fraction_digits(u).len(),
        })
    } else {
        None
    }
}

/// The order of the extended decimals (`NaN` compares to nothing).
pub open spec fn ext_le(a: ExtDecimal, b: ExtDecimal) -> bool {
    match (a, b) {
        (ExtDecimal::NaN, _) => false,
        (_, ExtDecimal::NaN) => false,
        (ExtDecimal::NegInf, _) => true,
        (_, ExtDecimal::PosInf) => true,
        (ExtDecimal::PosInf, _) => false,
        (_, ExtDecimal::NegInf) => false,
        (ExtDecimal::Finite { num: na, scale: sa }, ExtDecimal::Finite { num: nb, scale: sb }) =>
            na * pow10(sb) <= nb * pow10(sa),
    }
}

/// `a <= b` as bounds are compared: an unreadable left side is positive
/// infinity, an unreadable right side negative infinity.
pub open spec fn spec_decimal_le(a: Seq<char>, b: Seq<char>) -> bool {
    let av = match read_decimal(a) { Some(v) => v, None => ExtDecimal::PosInf };
    let bv = match read_decimal(b) { Some(v) => v, None => ExtDecimal::NegInf };
    ext_le(av, bv)
}

// ---------------------------------------------------------------------------
// Arithmetic facts
// ---------------------------------------------------------------------------

pub proof fn lemma_pow10_positive(k: nat)
    ensures
        pow10(k) >= 1,
    decreases k,
{
    if k > 0 {
        lemma_pow10_positive((k - 1) as nat);
    }
}

pub proof fn lemma_pow10_add(a: nat, b: nat)
    ensures
        pow10(a + b) == pow10(a) * pow10(b),
    decreases b,
{
    if b > 0 {
        lemma_pow10_add(a, (b - 1) as nat);
        assert(pow10(a + b) == 10 * pow10((a + b - 1) as nat));
        assert((a + b - 1) as nat == a + (b - 1) as nat);
        let p = pow10(a);
        let q = pow10((b - 1) as nat);
        assert(10 * (p * q) == p * (10 * q)) by (nonlinear_arith);
    }
}

pub open spec fn zeros(k: nat) -> Seq<char> {
    Seq::new(k, |i: int| '0')
}

pub proof fn lemma_zeros_value(k: nat)
    ensures
        digits_value(zeros(k)) == 0,
    decreases k,
{
    if k > 0 {
        assert(zeros(k).drop_last() =~= zeros((k - 1) as nat));
        lemma_zeros_value((k - 1) as nat);
    }
}

/// Leading zeros do not change the value.
pub proof fn lemma_leading_zeros(k: nat, s: Seq<char>)
    ensures
        digits_value(zeros(k) + s) == digits_value(s),
    decreases s.len(),
{
    if s.len() == 0 {
        assert(zeros(k) + s =~= zeros(k));
        lemma_zeros_value(k);
    } else {
        assert((zeros(k) + s).drop_last() =~= zeros(k) + s.drop_last());
        lemma_leading_zeros(k, s.drop_last());
    }
}

/// Trailing zeros multiply the value by a power of ten.
pub proof fn lemma_trailing_zeros(s: Seq<char>, k: nat)
    ensures
        digits_value(s + zeros(k)) == digits_value(s) * pow10(k),
    decreases k,
{
    if k == 0 {
        assert(s + zeros(k) =~= s);
    } else {
        assert((s + zeros(k)).drop_last() =~= s + zeros((k - 1) as nat));
        lemma_trailing_zeros(s, (k - 1) as nat);
        let v = digits_value(s);
        let p = pow10((k - 1) as nat);
        assert(v * p * 10 == v * (10 * p)) by (nonlinear_arith);
    }
}

pub proof fn lemma_digits_value_nonneg(s: Seq<char>)
    requires
        all_digits(s),
    ensures
        digits_value(s) >= 0,
    decreases s.len(),
{
    if s.len() > 0 {
        assert(all_digits(s.drop_last()));
        lemma_digits_value_nonneg(s.drop_last());
    }
}

/// The order of finite decimals is transitive.
proof fn lemma_finite_le_trans(na: int, sa: nat, nb: int, sb: nat, nc: int, sc: nat)
    requires
        na * pow10(sb) <= nb * pow10(sa),
        nb * pow10(sc) <= nc * pow10(sb),
    ensures
        na * pow10(sc) <= nc * pow10(sa),
{
    lemma_pow10_positive(sa);
    lemma_pow10_positive(sb);
    lemma_pow10_positive(sc);
    let pa = pow10(sa);
    let pb = pow10(sb);
    let pc = pow10(sc);
    assert(na * pb * pc <= nb * pa * pc) by (nonlinear_arith)
        requires
            na * pb <= nb * pa,
            pc >= 1,
    ;
    assert(nb * pc * pa <= nc * pb * pa) by (nonlinear_arith)
        requires
            nb * pc <= nc * pb,
            pa >= 1,
    ;
    assert(na * pc * pb <= nc * pa * pb) by (nonlinear_arith)
        requires
            na * pb * pc <= nb * pa * pc,
            nb * pc * pa <= nc * pb * pa,
    ;
    assert(na * pc <= nc * pa) by (nonlinear_arith)
        requires
            na * pc * pb <= nc * pa * pb,
            pb >= 1,
    ;
}

/// The order of extended decimals is transitive.
pub proof fn lemma_ext_le_trans(a: ExtDecimal, b: ExtDecimal, c: ExtDecimal)
    requires
        ext_le(a, b),
        ext_le(b, c),
    ensures
        ext_le(a, c),
{
    if let ExtDecimal::Finite { num: na, scale: sa } = a {
        if let ExtDecimal::Finite { num: nb, scale: sb } = b {
            if let ExtDecimal::Finite { num: nc, scale: sc } = c {
                lemma_finite_le_trans(na, sa, nb, sb, nc, sc);
            }
        }
    }
}

/// Any two extended decimals other than `NaN` are ordered one way or the
/// other.
pub proof fn lemma_ext_le_total(a: ExtDecimal, b: ExtDecimal)
    requires
        !(a is NaN),
        !(b is NaN),
    ensures
        ext_le(a, b) || ext_le(b, a),
{
}

/// Cross-multiplied comparison at the common scale `max(p, q)`.
pub proof fn lemma_common_scale(x: int, y: int, p: nat, q: nat)
    ensures
        ({
            let l: nat = if p >= q { p } else { q };
            (x * pow10(q) <= y * pow10(p)) == (x * pow10((l - p) as nat) <= y * pow10((l - q) as nat))
        }),
{
    let l: nat = if p >= q { p } else { q };
    let m: nat = if p >= q { q } else { p };
    assert(q == (l - p) as nat + m);
    assert(p == (l - q) as nat + m);
    lemma_pow10_add((l - p) as nat, m);
    lemma_pow10_add((l - q) as nat, m);
    lemma_pow10_positive(m);
    let a = pow10((l - p) as nat);
    let b = pow10((l - q) as nat);
    let c = pow10(m);
    assert(x * (a * c) == (x * a) * c) by (nonlinear_arith);
    assert(y * (b * c) == (y * b) * c) by (nonlinear_arith);
    assert(((x * a) * c <= (y * b) * c) == (x * a <= y * b)) by (nonlinear_arith)
        requires
            c >= 1,
    ;
}

// ---------------------------------------------------------------------------
// Reading a decimal
// ---------------------------------------------------------------------------

/// How a string read: the exec mirror of [`ExtDecimal`], where a finite
/// value keeps its digits.
pub enum ReadDecimal {
    Unreadable,
    NaN,
    NegInf,
    PosInf,
    /// Sign, integer digits and fraction digits.
    Finite { negative: bool, int_digits: Vec<char>, frac_digits: Vec<char> },
}

pub open spec fn read_model(r: ReadDecimal) -> Option<ExtDecimal> {
    match r {
        ReadDecimal::Unreadable => None,
        ReadDecimal::NaN => Some(ExtDecimal::NaN),
        ReadDecimal::NegInf => Some(ExtDecimal::NegInf),
        ReadDecimal::PosInf => Some(ExtDecimal::PosInf),
        ReadDecimal::Finite { negative, int_digits, frac_digits } => {
            let m = digits_value(int_digits@ + frac_digits@);
            Some(ExtDecimal::Finite { num: if negative { -m } else { m }, scale: frac_digits@.len() })
        },
    }
}

fn lower_ascii(c: char) -> (r: char)
    ensures
        r == ascii_lower(c),
{
    if 'A' <= c && c <= 'Z' {
        let v: u8 = (c as u8) + 32;
        v as char
    } else {
        c
    }
}

/// Whether `v[start..]` equals the lower-case word `w`, ignoring ASCII case.
fn rest_eq_ignore_case(v: &Vec<char>, start: usize, w: &Vec<char>) -> (r: bool)
    requires
        start <= v.len(),
    ensures
        r == eq_ignore_case(v@.skip(start as int), w@),
{
    if v.len() - start != w.len() {
        return false;
    }
    let mut i: usize = 0;
    while i < w.len()
        invariant
            start <= v.len(),
            v.len() - start == w.len(),
            i <= w.len(),
            forall|j: int| 0 <= j < i ==> ascii_lower(#[trigger] v@.skip(start as int)[j]) == w@[j],
        decreases w.len() - i,
    {
        if lower_ascii(v[start + i]) != w[i] {
            assert(ascii_lower(v@.skip(start as int)[i as int]) != w@[i as int]);
            return false;
        }
        i = i + 1;
    }
    true
}

proof fn lemma_dot_index_bounds(s: Seq<char>)
    ensures
        0 <= dot_index(s) <= s.len(),
        dot_index(s) < s.len() ==> s[dot_index(s)] == '.',
        forall|j: int| 0 <= j < dot_index(s) ==> s[j] != '.',
    decreases s.len(),
{
    if s.len() > 0 && s[0] != '.' {
        lemma_dot_index_bounds(s.drop_first());
        assert forall|j: int| 0 <= j < dot_index(s) implies s[j] != '.' by {
            if j > 0 {
                assert(s[j] == s.drop_first()[j - 1]);
            }
        }
    }
}

proof fn lemma_dot_index_char(s: Seq<char>, k: int)
    requires
        0 <= k <= s.len(),
        k < s.len() ==> s[k] == '.',
        forall|j: int| 0 <= j < k ==> s[j] != '.',
    ensures
        dot_index(s) == k,
    decreases s.len(),
{
    if s.len() > 0 && s[0] != '.' {
        assert(k > 0);
        assert forall|j: int| 0 <= j < k - 1 implies s.drop_first()[j] != '.' by {
            assert(s.drop_first()[j] == s[j + 1]);
        }
        lemma_dot_index_char(s.drop_first(), k - 1);
    }
}

/// Read a decimal string.
#[verifier::loop_isolation(false)]
pub fn read_decimal_exec(s: &str) -> (r: ReadDecimal)
    ensures
        read_model(r) == read_decimal(s@),
        r matches ReadDecimal::Finite { int_digits, frac_digits, .. } ==> all_digits(int_digits@)
            && all_digits(frac_digits@),
{
    let v = chars_of(s);
    let ghost sv = s@;
    let negative = v.len() > 0 && v[0] == '-';
    let start: usize = if v.len() > 0 && (v[0] == '+' || v[0] == '-') { 1 } else { 0 };
    let ghost u = unsigned_part(sv);
    assert(v@.skip(start as int) =~= u);
    let w_inf = vec!['i', 'n', 'f'];
    let w_infinity = vec!['i', 'n', 'f', 'i', 'n', 'i', 't', 'y'];
    let w_nan = vec!['n', 'a', 'n'];
    assert(w_inf@ =~= word_inf());
    assert(w_infinity@ =~= word_infinity());
    assert(w_nan@ =~= word_nan());
    if rest_eq_ignore_case(&v, start, &w_inf) || rest_eq_ignore_case(&v, start, &w_infinity) {
        return if negative { ReadDecimal::NegInf } else { ReadDecimal::PosInf };
    }
    if rest_eq_ignore_case(&v, start, &w_nan) {
        return ReadDecimal::NaN;
    }
    // Split at the first dot.
    let mut int_digits: Vec<char> = Vec::new();
    let mut i: usize = start;
    while i < v.len() && v[i] != '.'
        invariant
            start <= i <= v.len(),
            int_digits@ =~= v@.subrange(start as int, i as int),
            forall|j: int| start <= j < i ==> v@[j] != '.',
        decreases v.len() - i,
    {
        int_digits.push(v[i]);
        i = i + 1;
    }
    let dot = i;
    proof {
        assert forall|j: int| 0 <= j < dot - start implies u[j] != '.' by {
            assert(u[j] == v@[start + j]);
        }
        lemma_dot_index_char(u, dot - start);
        assert(integer_digits(u) =~= int_digits@);
    }
    let mut frac_digits: Vec<char> = Vec::new();
    if dot < v.len() {
        let mut k: usize = dot + 1;
        while k < v.len()
            invariant
                dot < v.len(),
                dot + 1 <= k <= v.len(),
                frac_digits@ =~= v@.subrange(dot + 1, k as int),
            decreases v.len() - k,
        {
            frac_digits.push(v[k]);
            k = k + 1;
        }
        assert(fraction_digits(u) =~= frac_digits@);
    } else {
        assert(fraction_digits(u) =~= frac_digits@);
    }
    // Every character must be a digit, and there must be one at least.
    let mut j: usize = 0;
    while j < int_digits.len()
        invariant
            j <= int_digits.len(),
            forall|t: int| 0 <= t < j ==> is_digit(#[trigger] int_digits@[t]),
        decreases int_digits.len() - j,
    {
        if !('0' <= int_digits[j] && int_digits[j] <= '9') {
            assert(!is_digit(integer_digits(u)[j as int]));
            return ReadDecimal::Unreadable;
        }
        j = j + 1;
    }
    let mut j: usize = 0;
    while j < frac_digits.len()
        invariant
            j <= frac_digits.len(),
            forall|t: int| 0 <= t < j ==> is_digit(#[trigger] frac_digits@[t]),
        decreases frac_digits.len() - j,
    {
        if !('0' <= frac_digits[j] && frac_digits[j] <= '9') {
            assert(!is_digit(fraction_digits(u)[j as int]));
            return ReadDecimal::Unreadable;
        }
        j = j + 1;
    }
    if int_digits.len() == 0 && frac_digits.len() == 0 {
        return ReadDecimal::Unreadable;
    }
    ReadDecimal::Finite { negative, int_digits, frac_digits }
}


// ---------------------------------------------------------------------------
// Comparing
// ---------------------------------------------------------------------------

fn push_zeros(out: &mut Vec<char>, k: usize)
    ensures
        final(out)@ == old(out)@ + zeros(k as nat),
{
    let ghost start = out@;
    let mut i: usize = 0;
    while i < k
        invariant
            i <= k,
            out@ =~= start + zeros(i as nat),
        decreases k - i,
    {
        out.push('0');
        i = i + 1;
    }
}

fn push_all(out: &mut Vec<char>, src: &Vec<char>)
    ensures
        final(out)@ == old(out)@ + src@,
{
    let ghost start = out@;
    let mut i: usize = 0;
    while i < src.len()
        invariant
            i <= src.len(),
            out@ =~= start + src@.take(i as int),
        decreases src.len() - i,
    {
        out.push(src[i]);
        i = i + 1;
    }
    assert(src@.take(src.len() as int) =~= src@);
}

/// The digits of `int_d.frac_d` padded to `li` integer and `lf`
/// fraction digits.
fn aligned(int_d: &Vec<char>, frac_d: &Vec<char>, li: usize, lf: usize) -> (out: Vec<char>)
    requires
        int_d.len() <= li,
        frac_d.len() <= lf,
    ensures
        out@ == zeros((li - int_d.len()) as nat) + int_d@ + frac_d@ + zeros((lf - frac_d.len()) as nat),
{
    let mut out: Vec<char> = Vec::new();
    push_zeros(&mut out, li - int_d.len());
    push_all(&mut out, int_d);
    push_all(&mut out, frac_d);
    push_zeros(&mut out, lf - frac_d.len());
    out
}

/// Digits followed by digits are digits.
pub proof fn lemma_all_digits_concat(a: Seq<char>, b: Seq<char>)
    requires
        all_digits(a),
        all_digits(b),
    ensures
        all_digits(a + b),
{
    assert forall|i: int| 0 <= i < (a + b).len() implies is_digit(#[trigger] (a + b)[i]) by {
        if i < a.len() {
            assert((a + b)[i] == a[i]);
        } else {
            assert((a + b)[i] == b[i - a.len()]);
        }
    }
}

/// Compare two equal-length digit strings by value: -1, 0 or 1.
fn compare_digit_strings(a: &Vec<char>, b: &Vec<char>) -> (r: i8)
    requires
        a.len() == b.len(),
        all_digits(a@),
        all_digits(b@),
    ensures
        r == -1 <==> digits_value(a@) < digits_value(b@),
        r == 0 <==> digits_value(a@) == digits_value(b@),
        r == 1 <==> digits_value(a@) > digits_value(b@),
{
    let mut ord: i8 = 0;
    let mut i: usize = 0;
    while i < a.len()
        invariant
            a.len() == b.len(),
            all_digits(a@),
            all_digits(b@),
            i <= a.len(),
            ord == -1 || ord == 0 || ord == 1,
            ord == -1 <==> digits_value(a@.take(i as int)) < digits_value(b@.take(i as int)),
            ord == 0 <==> digits_value(a@.take(i as int)) == digits_value(b@.take(i as int)),
        decreases a.len() - i,
    {
        let ghost va = digits_value(a@.take(i as int));
        let ghost vb = digits_value(b@.take(i as int));
        assert(a@.take(i + 1).drop_last() =~= a@.take(i as int));
        assert(b@.take(i + 1).drop_last() =~= b@.take(i as int));
        assert(a@.take(i + 1).last() == a@[i as int]);
        assert(b@.take(i + 1).last() == b@[i as int]);
        assert(is_digit(a@[i as int]));
        assert(is_digit(b@[i as int]));
        if ord == 0 {
            if a[i] < b[i] {
                ord = -1;
            } else if a[i] > b[i] {
                ord = 1;
            }
        }
        i = i + 1;
    }
    assert(a@.take(a.len() as int) =~= a@);
    assert(b@.take(b.len() as int) =~= b@);
    ord
}

/// Compare the magnitudes `int_a.frac_a` and `int_b.frac_b`.
fn compare_magnitudes(int_a: &Vec<char>, frac_a: &Vec<char>, int_b: &Vec<char>, frac_b: &Vec<char>) -> (r: i8)
    requires
        all_digits(int_a@),
        all_digits(frac_a@),
        all_digits(int_b@),
        all_digits(frac_b@),
    ensures
        ({
            let x = digits_value(int_a@ + frac_a@);
            let y = digits_value(int_b@ + frac_b@);
            let p = frac_a@.len();
            let q = frac_b@.len();
            &&& r == -1 <==> x * pow10(q) < y * pow10(p)
            &&& r == 0 <==> x * pow10(q) == y * pow10(p)
            &&& r == 1 <==> x * pow10(q) > y * pow10(p)
        }),
{
    let li = if int_a.len() >= int_b.len() { int_a.len() } else { int_b.len() };
    let lf = if frac_a.len() >= frac_b.len() { frac_a.len() } else { frac_b.len() };
    let a = aligned(int_a, frac_a, li, lf);
    let b = aligned(int_b, frac_b, li, lf);
    let ghost x = digits_value(int_a@ + frac_a@);
    let ghost y = digits_value(int_b@ + frac_b@);
    let ghost p = frac_a@.len();
    let ghost q = frac_b@.len();
    proof {
        let za = zeros((li - int_a.len()) as nat);
        let zb = zeros((li - int_b.len()) as nat);
        let ta = zeros((lf - frac_a.len()) as nat);
        let tb = zeros((lf - frac_b.len()) as nat);
        lemma_all_digits_concat(int_a@, frac_a@);
        lemma_all_digits_concat(int_b@, frac_b@);
        lemma_all_digits_concat(za, int_a@ + frac_a@);
        lemma_all_digits_concat(zb, int_b@ + frac_b@);
        lemma_all_digits_concat(za + (int_a@ + frac_a@), ta);
        lemma_all_digits_concat(zb + (int_b@ + frac_b@), tb);
        assert(a@ =~= za + (int_a@ + frac_a@) + ta);
        assert(b@ =~= zb + (int_b@ + frac_b@) + tb);
        lemma_trailing_zeros(za + (int_a@ + frac_a@), (lf - frac_a.len()) as nat);
        lemma_trailing_zeros(zb + (int_b@ + frac_b@), (lf - frac_b.len()) as nat);
        lemma_leading_zeros((li - int_a.len()) as nat, int_a@ + frac_a@);
        lemma_leading_zeros((li - int_b.len()) as nat, int_b@ + frac_b@);
        lemma_common_scale(x, y, p, q);
        let l: nat = if p >= q { p } else { q };
        assert(l == lf);
        assert(digits_value(a@) == x * pow10((l - p) as nat));
        assert(digits_value(b@) == y * pow10((l - q) as nat));
        // The same facts with the opposite inequalities.
        lemma_common_scale(y, x, q, p);
    }
    compare_digit_strings(&a, &b)
}

/// Whether the decimal `a` is at most the decimal `b`; see the module
/// documentation for how unreadable strings and the special words count.
pub fn decimal_le(a: &str, b: &str) -> (r: bool)
    ensures
        r == spec_decimal_le(a@, b@),
{
    let ra = read_decimal_exec(a);
    let rb = read_decimal_exec(b);
    match (ra, rb) {
        (ReadDecimal::NaN, _) => false,
        (_, ReadDecimal::NaN) => false,
        (ReadDecimal::NegInf, _) => true,
        (_, ReadDecimal::PosInf) => true,
        (ReadDecimal::PosInf, _) => false,
        (ReadDecimal::Unreadable, _) => false,
        (_, ReadDecimal::NegInf) => false,
        (_, ReadDecimal::Unreadable) => false,
        (
            ReadDecimal::Finite { negative: na, int_digits: ia, frac_digits: fa },
            ReadDecimal::Finite { negative: nb, int_digits: ib, frac_digits: fb },
        ) => {
            proof {
                lemma_read_finite_digits(a@);
                lemma_read_finite_digits(b@);
            }
            let ord = compare_magnitudes(&ia, &fa, &ib, &fb);
            let ghost x = digits_value(ia@ + fa@);
            let ghost y = digits_value(ib@ + fb@);
            let ghost p = fa@.len();
            let ghost q = fb@.len();
            proof {
                lemma_all_digits_concat(ia@, fa@);
                lemma_all_digits_concat(ib@, fb@);
                lemma_digits_value_nonneg(ia@ + fa@);
                lemma_digits_value_nonneg(ib@ + fb@);
                lemma_pow10_positive(p);
                lemma_pow10_positive(q);
                lemma_signed_cross(x, y, pow10(p), pow10(q));
            }
            if !na && !nb {
                ord <= 0
            } else if na && nb {
                ord >= 0
            } else if na {
                true
            } else {
                // a is non-negative and b is non-positive: only 0 <= -0.
                let za = is_all_zero(&ia) && is_all_zero(&fa);
                let zb = is_all_zero(&ib) && is_all_zero(&fb);
                proof {
                    lemma_zero_iff(ia@ + fa@);
                    lemma_zero_iff(ib@ + fb@);
                    lemma_all_zero_concat(ia@, fa@);
                    lemma_all_zero_concat(ib@, fb@);
                }
                za && zb
            }
        },
    }
}

/// Sign bookkeeping for cross-multiplied comparisons.
proof fn lemma_signed_cross(x: int, y: int, pp: int, pq: int)
    requires
        x >= 0,
        y >= 0,
        pp >= 1,
        pq >= 1,
    ensures
        (-x) * pq <= (-y) * pp <==> x * pq >= y * pp,
        (-x) * pq <= y * pp,
        (x * pq <= (-y) * pp) <==> (x == 0 && y == 0),
{
    assert((-x) * pq == -(x * pq)) by (nonlinear_arith);
    assert((-y) * pp == -(y * pp)) by (nonlinear_arith);
    assert(x * pq >= 0) by (nonlinear_arith)
        requires
            x >= 0,
            pq >= 1,
    ;
    assert(y * pp >= 0) by (nonlinear_arith)
        requires
            y >= 0,
            pp >= 1,
    ;
    assert(x * pq == 0 ==> x == 0) by (nonlinear_arith)
        requires
            x >= 0,
            pq >= 1,
    ;
    assert(y * pp == 0 ==> y == 0) by (nonlinear_arith)
        requires
            y >= 0,
            pp >= 1,
    ;
}

pub open spec fn all_zero(s: Seq<char>) -> bool {
    forall|i: int| 0 <= i < s.len() ==> #[trigger] s[i] == '0'
}

fn is_all_zero(v: &Vec<char>) -> (r: bool)
    ensures
        r == all_zero(v@),
{
    let mut i: usize = 0;
    while i < v.len()
        invariant
            i <= v.len(),
            forall|j: int| 0 <= j < i ==> #[trigger] v@[j] == '0',
        decreases v.len() - i,
    {
        if v[i] != '0' {
            return false;
        }
        i = i + 1;
    }
    true
}

proof fn lemma_all_zero_concat(a: Seq<char>, b: Seq<char>)
    ensures
        all_zero(a + b) == (all_zero(a) && all_zero(b)),
{
    if all_zero(a + b) {
        assert forall|i: int| 0 <= i < a.len() implies #[trigger] a[i] == '0' by {
            assert((a + b)[i] == a[i]);
        }
        assert forall|i: int| 0 <= i < b.len() implies #[trigger] b[i] == '0' by {
            assert((a + b)[a.len() + i] == b[i]);
        }
    }
    if all_zero(a) && all_zero(b) {
        assert forall|i: int| 0 <= i < (a + b).len() implies #[trigger] (a + b)[i] == '0' by {
            if i < a.len() {
                assert((a + b)[i] == a[i]);
            } else {
                assert((a + b)[i] == b[i - a.len()]);
            }
        }
    }
}

/// A digit string is worth zero exactly when every digit is `0`.
proof fn lemma_zero_iff(s: Seq<char>)
    requires
        all_digits(s),
    ensures
        (digits_value(s) == 0) == all_zero(s),
    decreases s.len(),
{
    if s.len() > 0 {
        assert(all_digits(s.drop_last()));
        lemma_zero_iff(s.drop_last());
        lemma_digits_value_nonneg(s.drop_last());
        assert(is_digit(s[s.len() - 1]));
        if all_zero(s) {
            assert forall|i: int| 0 <= i < s.drop_last().len() implies #[trigger] s.drop_last()[i] == '0' by {
                assert(s.drop_last()[i] == s[i]);
            }
        }
        if all_zero(s.drop_last()) && s.last() == '0' {
            assert forall|i: int| 0 <= i < s.len() implies #[trigger] s[i] == '0' by {
                if i < s.len() - 1 {
                    assert(s.drop_last()[i] == s[i]);
                }
            }
        }
    }
}

/// A finite read has digit-only parts.
proof fn lemma_read_finite_digits(s: Seq<char>)
    ensures
        read_decimal(s) matches Some(ExtDecimal::Finite { .. }) ==> is_plain_decimal(unsigned_part(s)),
{
}

} // verus!
