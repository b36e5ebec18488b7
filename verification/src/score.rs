//! [`Score`] — fixed-precision decimal weights — and their conversion to
//! and from the scaled integer form (`score * 10_000`) used for
//! accumulation, so no floating point is involved.

use vstd::prelude::*;

use crate::decimal::{
    all_digits, digit_value, digits_value, dot_index, is_digit, lemma_leading_zeros, lemma_trailing_zeros, pow10, zeros,
};
use crate::numtext::{
    lemma_nat_digits, nat_digits, parse_i64, parse_i64_spec, trim_chars, trim_spec,
    u64_digits,
};
use crate::text::{chars_of, owned, push_char, string_from_chars};

verus! {

/// A decimal weight in its textual form (e.g. `"2.5"`, `"-0.25"`).
#[derive(Debug, Clone, PartialEq, Eq, Hash)]
pub struct Score(pub String);

// ---------------------------------------------------------------------------
// Reading
// ---------------------------------------------------------------------------

/// The text after an optional leading minus.
pub open spec fn score_rest(t: Seq<char>) -> Seq<char> {
    if t.len() > 0 && t[0] == '-' { t.drop_first() } else { t }
}

/// Integer part: up to the first dot.
pub open spec fn score_int_part(t: Seq<char>) -> Seq<char> {
    score_rest(t).take(dot_index(score_rest(t)))
}

/// Fraction part: after the first dot (empty without one).
pub open spec fn score_frac_part(t: Seq<char>) -> Seq<char> {
    let r = score_rest(t);
    if dot_index(r) < r.len() { r.skip(dot_index(r) + 1) } else { Seq::empty() }
}

/// The first (at most) four fraction digits; later ones are truncated.
pub open spec fn score_frac4(t: Seq<char>) -> Seq<char> {
    let f = score_frac_part(t);
    if f.len() <= 4 { f } else { f.take(4) }
}

/// The four-digit fraction value (missing digits count as zeros).
pub open spec fn score_frac_value(t: Seq<char>) -> int {
    digits_value(score_frac4(t)) * pow10((4 - score_frac4(t).len()) as nat)
}

/// Whether the score text reads: non-empty after trimming, an `i64`
/// integer part, and digits only among the first four fraction digits.
pub open spec fn score_reads(s: Seq<char>) -> bool {
    let t = trim_spec(s);
    &&& t.len() > 0
    &&& parse_i64_spec(score_int_part(t)).is_some()
    &&& all_digits(score_frac4(t))
}

/// `integer_part * 10_000` of a score that reads.
pub open spec fn score_int_scaled(s: Seq<char>) -> int {
    parse_i64_spec(score_int_part(trim_spec(s))).unwrap() * 10000
}

/// The arithmetic of reading stays within `i64`.
pub open spec fn score_in_range(s: Seq<char>) -> bool {
    score_reads(s) ==> {
        &&& i64::MIN <= score_int_scaled(s) <= i64::MAX
        &&& i64::MIN <= score_int_scaled(s) + score_frac_value(trim_spec(s)) <= i64::MAX
    }
}

/// The scaled value of a score that reads: the sign applies to
/// `integer_part * 10_000 + fraction`.
pub open spec fn score_scaled_value(s: Seq<char>) -> int {
    let t = trim_spec(s);
    let inner = score_int_scaled(s) + score_frac_value(t);
    if t[0] == '-' { -inner } else { inner }
}

/// The integer-part characters of `t` (after an optional leading minus,
/// up to the first dot) and the index of that dot (or `t.len()`).
fn split_integer_part(t: &Vec<char>) -> (r: (Vec<char>, usize))
    ensures
        r.0@ == score_int_part(t@),
        r.1 <= t@.len(),
        ({
            let start: int = if t@.len() > 0 && t@[0] == '-' { 1 } else { 0 };
            &&& start <= r.1
            &&& score_frac_part(t@) == (if r.1 < t@.len() { t@.subrange(r.1 + 1, t@.len() as int) } else { Seq::<char>::empty() })
        }),
{
    let start: usize = if t.len() > 0 && t[0] == '-' { 1 } else { 0 };
    let ghost rest = score_rest(t@);
    assert(rest =~= t@.skip(start as int));
    let mut int_part: Vec<char> = Vec::new();
    let mut i: usize = start;
    while i < t.len() && t[i] != '.'
        invariant
            start <= i <= t.len(),
            start == (if t@.len() > 0 && t@[0] == '-' { 1int } else { 0int }),
            rest =~= t@.skip(start as int),
            int_part@ =~= t@.subrange(start as int, i as int),
            forall|j: int| start <= j < i ==> t@[j] != '.',
        decreases t.len() - i,
    {
        int_part.push(t[i]);
        i = i + 1;
    }
    proof {
        assert forall|j: int| 0 <= j < i - start implies rest[j] != '.' by {
            assert(rest[j] == t@[start + j]);
        }
        lemma_dot_index_at(rest, i - start);
        assert(int_part@ =~= score_int_part(t@));
        if i < t.len() {
            assert(score_frac_part(t@) =~= t@.subrange(i + 1, t@.len() as int));
        } else {
            assert(score_frac_part(t@) =~= Seq::<char>::empty());
        }
    }
    (int_part, i)
}

/// The first (at most) four fraction characters, or the first of them
/// that is not a digit.
fn fraction_digits4(t: &Vec<char>, dot: usize) -> (r: Result<Vec<char>, char>)
    requires
        dot <= t@.len(),
        score_frac_part(t@) == (if dot < t@.len() { t@.subrange(dot + 1, t@.len() as int) } else { Seq::<char>::empty() }),
    ensures
        r matches Ok(f) ==> f@ == score_frac4(t@) && all_digits(f@),
        r is Err ==> !all_digits(score_frac4(t@)),
{
    let frac_start: usize = if dot < t.len() { dot + 1 } else { t.len() };
    assert(score_frac_part(t@) =~= t@.subrange(frac_start as int, t@.len() as int));
    let mut frac: Vec<char> = Vec::new();
    let mut k: usize = frac_start;
    while k < t.len() && frac.len() < 4
        invariant
            frac_start <= k <= t.len(),
            score_frac_part(t@) =~= t@.subrange(frac_start as int, t@.len() as int),
            frac@.len() <= 4,
            k - frac_start == frac@.len(),
            frac@ =~= t@.subrange(frac_start as int, k as int),
            forall|j: int| 0 <= j < frac@.len() ==> is_digit(#[trigger] frac@[j]),
        decreases t.len() - k,
    {
        let c = t[k];
        if !('0' <= c && c <= '9') {
            proof {
                assert(score_frac4(t@)[frac@.len() as int] == c);
            }
            return Err(c);
        }
        frac.push(c);
        k = k + 1;
    }
    proof {
        assert(frac@ =~= score_frac4(t@));
    }
    Ok(frac)
}

/// The value of up to four fraction digits, padded with zeros to four.
fn four_digit_value(frac: &Vec<char>) -> (v: i64)
    requires
        frac@.len() <= 4,
        all_digits(frac@),
    ensures
        v == digits_value(frac@) * pow10((4 - frac@.len()) as nat),
        0 <= v < 10000,
{
    proof {
        lemma_pow10_small();
    }
    let mut frac_val: i64 = 0;
    let mut j: usize = 0;
    while j < 4
        invariant
            j <= 4,
            frac@.len() <= 4,
            all_digits(frac@),
            pow10(0) == 1 && pow10(1) == 10 && pow10(2) == 100 && pow10(3) == 1000 && pow10(4) == 10000,
            0 <= frac_val,
            frac_val == digits_value(padded4(frac@).take(j as int)),
            frac_val < pow10(j as nat),
        decreases 4 - j,
    {
        let d: i64 = if j < frac.len() { crate::numtext::digit_of(frac[j]) as i64 } else { 0 };
        proof {
            assert(padded4(frac@).take(j + 1).drop_last() =~= padded4(frac@).take(j as int));
            if j < frac@.len() {
                assert(padded4(frac@)[j as int] == frac@[j as int]);
            } else {
                assert(padded4(frac@)[j as int] == '0');
            }
            assert(digit_value(padded4(frac@)[j as int]) == d);
        }
        frac_val = frac_val * 10 + d;
        j = j + 1;
    }
    proof {
        assert(padded4(frac@).take(4) =~= padded4(frac@));
        lemma_trailing_zeros(frac@, (4 - frac@.len()) as nat);
    }
    frac_val
}

/// Parse a score into its scaled integer form `score * 10_000`; digits
/// past the fourth fractional one are discarded. Fails on an empty
/// score, an unreadable integer part, or a non-digit among the first four
/// fractional digits.
pub fn parse_score_scaled(score: &Score) -> (r: Result<i64, String>)
    requires
        score_in_range(score.0@),
    ensures
        r.is_ok() == score_reads(score.0@),
        r matches Ok(v) ==> v == score_scaled_value(score.0@),
{
    let all = chars_of(score.0.as_str());
    let t = trim_chars(&all);
    if t.len() == 0 {
        return Err(owned("empty score string"));
    }
    let neg = t[0] == '-';
    let (int_part, dot) = split_integer_part(&t);
    let int_val = match parse_i64(&int_part) {
        Some(v) => v,
        None => {
            let mut msg = owned("integer part ");
            msg.append(string_from_chars(&int_part).as_str());
            msg.append(" not parseable");
            return Err(msg);
        },
    };
    let frac = match fraction_digits4(&t, dot) {
        Ok(f) => f,
        Err(c) => {
            let mut msg = owned("fractional part contains non-digit: ");
            push_char(&mut msg, c);
            return Err(msg);
        },
    };
    let frac_val = four_digit_value(&frac);
    let scaled = int_val * 10000 + frac_val;
    Ok(if neg { -scaled } else { scaled })
}

/// Whether reading `score` stays within `i64` arithmetic (scores that do
/// not read at all count as in range).
pub fn score_fits(score: &Score) -> (r: bool)
    ensures
        r == score_in_range(score.0@),
{
    let all = chars_of(score.0.as_str());
    let t = trim_chars(&all);
    if t.len() == 0 {
        return true;
    }
    let (int_part, dot) = split_integer_part(&t);
    let int_val = match parse_i64(&int_part) {
        Some(v) => v,
        None => {
            return true;
        },
    };
    let frac = match fraction_digits4(&t, dot) {
        Ok(f) => f,
        Err(_) => {
            return true;
        },
    };
    let frac_val = four_digit_value(&frac);
    let scaled: i128 = (int_val as i128) * 10000;
    let total: i128 = scaled + (frac_val as i128);
    -9223372036854775808i128 <= scaled && scaled <= 9223372036854775807i128
        && -9223372036854775808i128 <= total && total <= 9223372036854775807i128
}

/// The four fraction digits with missing ones filled by zeros.
pub open spec fn padded4(f: Seq<char>) -> Seq<char> {
    f + zeros((4 - f.len()) as nat)
}

proof fn lemma_dot_index_at(s: Seq<char>, k: int)
    requires
        0 <= k <= s.len(),
        k < s.len() ==> s[k] == '.',
        forall|j: int| 0 <= j < k ==> s[j] != '.',
    ensures
        dot_index(s) == k,
    decreases s.len(),
{
    if s.len() > 0 && s[0] != '.' {
        assert forall|j: int| 0 <= j < k - 1 implies s.drop_first()[j] != '.' by {
            assert(s.drop_first()[j] == s[j + 1]);
        }
        lemma_dot_index_at(s.drop_first(), k - 1);
    }
}

// ---------------------------------------------------------------------------
// Writing
// ---------------------------------------------------------------------------

/// `s` without trailing zeros, keeping at least one character.
pub open spec fn strip_trailing_zeros(s: Seq<char>) -> Seq<char>
    decreases s.len(),
{
    if s.len() > 1 && s.last() == '0' {
        strip_trailing_zeros(s.drop_last())
    } else {
        s
    }
}

/// `n` (below 10_000) as exactly four digits.
pub open spec fn four_digits(n: nat) -> Seq<char> {
    zeros((4 - nat_digits(n).len()) as nat) + nat_digits(n)
}

pub open spec fn abs_int(x: int) -> nat {
    if x < 0 { (-x) as nat } else { x as nat }
}

/// The text a scaled score renders to: the integer part, a dot, and the
/// fraction with trailing zeros removed (`"0"` when there is none).
pub open spec fn render_spec(x: int) -> Seq<char> {
    let sign = if x < 0 { seq!['-'] } else { Seq::<char>::empty() };
    let a = abs_int(x);
    let ip = a / 10000;
    let fp = a % 10000;
    let frac = if fp == 0 { seq!['0'] } else { strip_trailing_zeros(four_digits(fp)) };
    sign + nat_digits(ip) + seq!['.'] + frac
}

/// Render a scaled score back to text with at most four fractional
/// digits, stripping trailing zeros but keeping at least one digit after
/// the dot (`0` renders as `"0.0"`).
pub fn render_score_scaled(scaled: i64) -> (s: Score)
    ensures
        s.0@ == render_spec(scaled as int),
{
    let abs: u64 = if scaled < 0 {
        if scaled == i64::MIN {
            9223372036854775808u64
        } else {
            (-scaled) as u64
        }
    } else {
        scaled as u64
    };
    assert(abs as int == abs_int(scaled as int));
    let int_part = abs / 10000;
    let frac_part = abs % 10000;
    let mut out = if scaled < 0 { owned("-") } else { String::new() };
    let ghost sign = out@;
    let int_digits = u64_digits(int_part);
    out.append(string_from_chars(&int_digits).as_str());
    push_char(&mut out, '.');
    if frac_part == 0 {
        push_char(&mut out, '0');
        proof {
            reveal_strlit("-");
        }
        assert(out@ =~= render_spec(scaled as int));
    } else {
        let digits = u64_digits(frac_part);
        proof {
            lemma_nat_digits(frac_part as nat);
            lemma_nat_digits_len_4(frac_part as nat);
        }
        let mut frac: Vec<char> = Vec::new();
        let mut z: usize = 0;
        while z < 4 - digits.len()
            invariant
                digits.len() <= 4,
                z <= 4 - digits.len(),
                frac@ =~= zeros(z as nat),
            decreases 4 - digits.len() - z,
        {
            frac.push('0');
            z = z + 1;
        }
        let mut d: usize = 0;
        let ghost zs = frac@;
        while d < digits.len()
            invariant
                d <= digits.len(),
                frac@ =~= zs + digits@.take(d as int),
            decreases digits.len() - d,
        {
            frac.push(digits[d]);
            d = d + 1;
        }
        assert(digits@.take(digits.len() as int) =~= digits@);
        assert(frac@ =~= four_digits(frac_part as nat));
        let ghost full = frac@;
        while frac.len() > 1 && frac[frac.len() - 1] == '0'
            invariant
                strip_trailing_zeros(frac@) == strip_trailing_zeros(full),
            decreases frac.len(),
        {
            frac.pop();
        }
        assert(frac@ == strip_trailing_zeros(full));
        let frac_s = string_from_chars(&frac);
        out.append(frac_s.as_str());
        proof {
            reveal_strlit("-");
        }
        assert(out@ =~= render_spec(scaled as int));
    }
    Score(out)
}

/// The powers of ten up to 10_000.
pub proof fn lemma_pow10_small()
    ensures
        pow10(0) == 1,
        pow10(1) == 10,
        pow10(2) == 100,
        pow10(3) == 1000,
        pow10(4) == 10000,
{
    reveal_with_fuel(pow10, 5);
}

proof fn lemma_nat_digits_len_4(n: nat)
    requires
        n < 10000,
    ensures
        nat_digits(n).len() <= 4,
{
    lemma_pow10_small();
    lemma_digits_len_bound(n, 4);
}

proof fn lemma_digits_len_bound(n: nat, k: nat)
    requires
        k >= 1,
        n < pow10(k),
    ensures
        nat_digits(n).len() <= k,
    decreases k,
{
    if n >= 10 {
        assert(k >= 2) by {
            if k == 1 {
                assert(pow10(1) == 10 * pow10(0));
            }
        }
        let p = pow10((k - 1) as nat);
        assert(pow10(k) == 10 * p);
        assert(n / 10 < p) by (nonlinear_arith)
            requires
                n < 10 * p,
        ;
        lemma_digits_len_bound(n / 10, (k - 1) as nat);
    }
}


// ---------------------------------------------------------------------------
// Round trip
// ---------------------------------------------------------------------------

proof fn lemma_strip(s: Seq<char>)
    requires
        s.len() >= 1,
    ensures
        1 <= strip_trailing_zeros(s).len() <= s.len(),
        s =~= strip_trailing_zeros(s) + zeros((s.len() - strip_trailing_zeros(s).len()) as nat),
    decreases s.len(),
{
    if s.len() > 1 && s.last() == '0' {
        lemma_strip(s.drop_last());
        let st = strip_trailing_zeros(s.drop_last());
        let k = (s.drop_last().len() - st.len()) as nat;
        assert(s =~= s.drop_last().push('0'));
        assert(zeros(k).push('0') =~= zeros(k + 1));
        assert(s =~= st + zeros(k + 1));
    } else {
        assert(zeros(0) =~= Seq::<char>::empty());
    }
}

proof fn lemma_prefix_digits(s: Seq<char>, t: Seq<char>)
    requires
        all_digits(s + t),
    ensures
        all_digits(s),
{
    assert forall|i: int| 0 <= i < s.len() implies is_digit(#[trigger] s[i]) by {
        assert((s + t)[i] == s[i]);
    }
}

/// The four-digit rendering of a fraction, stripped of trailing zeros,
/// reads back as the same fraction.
proof fn lemma_fraction_round_trip(fp: nat)
    requires
        0 < fp < 10000,
    ensures
        ({
            let f = strip_trailing_zeros(four_digits(fp));
            &&& 1 <= f.len() <= 4
            &&& all_digits(f)
            &&& digits_value(f) * pow10((4 - f.len()) as nat) == fp
        }),
{
    lemma_nat_digits(fp);
    lemma_nat_digits_len_4(fp);
    let nd = nat_digits(fp);
    let fd = four_digits(fp);
    assert(fd.len() == 4);
    lemma_leading_zeros((4 - nd.len()) as nat, nd);
    crate::decimal::lemma_all_digits_concat(zeros((4 - nd.len()) as nat), nd);
    lemma_strip(fd);
    let f = strip_trailing_zeros(fd);
    let k = (fd.len() - f.len()) as nat;
    lemma_prefix_digits(f, zeros(k));
    lemma_trailing_zeros(f, k);
    assert((4 - f.len()) as nat == k);
}

/// A rendered score has no whitespace at either end.
proof fn lemma_render_trims_to_itself(s: Seq<char>)
    requires
        s.len() >= 1,
        s[0] == '-' || is_digit(s[0]),
        is_digit(s.last()),
    ensures
        trim_spec(s) == s,
{
    crate::numtext::lemma_trim_start(s, 0);
    assert(s.skip(0) =~= s);
    crate::numtext::lemma_trim_end(s, s.len() as int);
    assert(s.take(s.len() as int) =~= s);
}

/// Rendering a scaled score and reading the text back gives the same
/// value, for every value above `i64::MIN` (whose magnitude does not fit
/// an `i64`, so reading its rendering back overflows).
pub proof fn lemma_render_then_parse(x: i64)
    requires
        x > i64::MIN,
    ensures
        score_in_range(render_spec(x as int)),
        score_reads(render_spec(x as int)),
        score_scaled_value(render_spec(x as int)) == x,
{
    let s = render_spec(x as int);
    let a = abs_int(x as int);
    let ip = a / 10000;
    let fp = a % 10000;
    assert(a == ip * 10000 + fp && 0 <= fp < 10000) by (nonlinear_arith)
        requires
            ip == a / 10000,
            fp == a % 10000,
    ;
    lemma_nat_digits(ip);
    lemma_pow10_small();
    let nd = nat_digits(ip);
    let frac = if fp == 0 { seq!['0'] } else { strip_trailing_zeros(four_digits(fp)) };
    if fp != 0 {
        lemma_fraction_round_trip(fp);
    } else {
        let z = seq!['0'];
        assert(z.drop_last() =~= Seq::<char>::empty());
        assert(z.len() == 1 && z.last() == '0');
        assert(digit_value('0') == 0);
        assert(digits_value(z) == digits_value(z.drop_last()) * 10 + digit_value(z.last()));
        assert(digits_value(z) == 0);
    }
    assert(all_digits(frac) && 1 <= frac.len() <= 4);
    assert(digits_value(frac) * pow10((4 - frac.len()) as nat) == fp);
    let sign = if x < 0 { seq!['-'] } else { Seq::<char>::empty() };
    let rest = nd + seq!['.'] + frac;
    assert(s =~= sign + rest);
    // Trimming leaves the text alone.
    assert(is_digit(frac.last()));
    assert(s.last() == frac.last());
    assert(s[0] == '-' || is_digit(s[0])) by {
        if x >= 0 {
            assert(s[0] == nd[0]);
        }
    }
    lemma_render_trims_to_itself(s);
    let t = trim_spec(s);
    assert(t == s);
    assert(score_rest(t) =~= rest) by {
        if x < 0 {
            assert(t[0] == '-');
        } else {
            assert(t[0] == nd[0]);
            assert(is_digit(nd[0]));
        }
    }
    // The dot follows the integer digits.
    assert forall|j: int| 0 <= j < nd.len() implies rest[j] != '.' by {
        assert(rest[j] == nd[j]);
        assert(is_digit(nd[j]));
    }
    lemma_dot_index_at(rest, nd.len() as int);
    assert(score_int_part(t) =~= nd);
    assert(score_frac_part(t) =~= frac);
    assert(score_frac4(t) == frac);
    // The integer part reads back.
    assert(nd[0] != '+' && nd[0] != '-') by {
        assert(is_digit(nd[0]));
    }
    assert(ip <= i64::MAX);
    assert(parse_i64_spec(nd) == Some(ip as int));
    assert(score_int_scaled(s) == ip * 10000);
}


proof fn lemma_strip_ends(s: Seq<char>)
    ensures
        strip_trailing_zeros(s).len() <= 1 || strip_trailing_zeros(s).last() != '0',
    decreases s.len(),
{
    if s.len() > 1 && s.last() == '0' {
        lemma_strip_ends(s.drop_last());
    }
}

/// The fraction digits a scaled score renders with.
pub open spec fn render_fraction(x: int) -> Seq<char> {
    let fp = abs_int(x) % 10000;
    if fp == 0 {
        seq!['0']
    } else {
        strip_trailing_zeros(four_digits(fp))
    }
}

/// The shape of a rendered score: an optional minus, the integer digits,
/// exactly one dot, then one to four fraction digits, the last of them
/// not `0` unless the fraction is exactly `"0"`.
pub proof fn lemma_render_shape(x: int)
    ensures
        ({
            let t = render_spec(x);
            let f = render_fraction(x);
            let head = (if x < 0 { seq!['-'] } else { Seq::<char>::empty() }) + nat_digits(abs_int(x) / 10000);
            &&& t == head + seq!['.'] + f
            &&& all_digits(nat_digits(abs_int(x) / 10000))
            &&& forall|j: int| 0 <= j < t.len() && t[j] == '.' ==> j == head.len()
            &&& 1 <= f.len() <= 4
            &&& all_digits(f)
            &&& (f == seq!['0'] || f.last() != '0')
        }),
{
    let a = abs_int(x);
    let fp = a % 10000;
    let t = render_spec(x);
    let f = render_fraction(x);
    let digits = nat_digits(a / 10000);
    let head = (if x < 0 { seq!['-'] } else { Seq::<char>::empty() }) + digits;
    lemma_nat_digits(a / 10000);
    assert(t =~= head + seq!['.'] + f);
    if fp != 0 {
        lemma_fraction_round_trip(fp);
        lemma_strip_ends(four_digits(fp));
        if f.len() == 1 && f[0] == '0' {
            assert(f.drop_last() =~= Seq::<char>::empty());
            assert(digits_value(f.drop_last()) == 0);
            assert(f.last() == '0');
            assert(digit_value('0') == 0);
            assert(digits_value(f) == 0);
            assert(digits_value(f) * pow10((4 - f.len()) as nat) == 0) by (nonlinear_arith)
                requires
                    digits_value(f) == 0,
            ;
        }
        if f.len() == 1 && f.last() == '0' {
            assert(f[0] == '0');
        }
    } else {
        assert(is_digit('0'));
    }
    assert forall|j: int| 0 <= j < t.len() && t[j] == '.' implies j == head.len() by {
        if j < head.len() {
            if x < 0 && j == 0 {
                assert(t[j] == '-');
            } else {
                let d = if x < 0 { j - 1 } else { j };
                assert(t[j] == digits[d]);
                assert(is_digit(digits[d]));
            }
        } else if j > head.len() {
            assert(t[j] == f[j - head.len() - 1]);
            assert(is_digit(f[j - head.len() - 1]));
        }
    }
}

} // verus!
