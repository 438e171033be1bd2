use vstd::prelude::*;

use crate::text::chars_to_string;

verus! {

/// Closed set of units of measure used by the ingestion pipeline.
/// Units are tags only: no automatic conversion is offered, callers pick the
/// unit that matches the source column's convention.
#[derive(Clone, Copy, PartialEq, Eq, Structural, Debug)]
pub enum Unit {
    Kcal,
    Gram,
    Milligram,
}

impl Unit {
    pub open spec fn spec_suffix(self) -> Seq<char> {
        match self {
            Unit::Kcal => "kcal"@,
            Unit::Gram => "g"@,
            Unit::Milligram => "mg"@,
        }
    }

    /// The wire/SQL suffix of a unit: `kcal`, `g` or `mg`.
    pub fn suffix(&self) -> (r: &'static str)
        ensures
            r@ == self.spec_suffix(),
    {
        match self {
            Unit::Kcal => "kcal",
            Unit::Gram => "g",
            Unit::Milligram => "mg",
        }
    }
}

/// Opaque external identifier of a record within its dataset.
#[derive(Debug, PartialEq, Eq)]
pub struct FoodCode(pub String);

impl Clone for FoodCode {
    fn clone(&self) -> (r: FoodCode)
        ensures
            r == *self,
    {
        FoodCode(self.0.clone())
    }
}

/// True for the characters `0` through `9`.
pub open spec fn is_digit_char(c: char) -> bool {
    48 <= c as u32 && c as u32 <= 57
}

/// Numeric value of a digit character.
pub open spec fn digit_val(c: char) -> int {
    c as u32 - 48
}

/// How many `.` characters the text holds.
pub open spec fn count_dots(s: Seq<char>) -> nat
    decreases s.len(),
{
    if s.len() == 0 {
        0nat
    } else {
        count_dots(s.drop_last()) + (if s.last() == '.' {
            1nat
        } else {
            0nat
        })
    }
}

pub open spec fn has_dot(s: Seq<char>) -> bool {
    count_dots(s) > 0
}

pub open spec fn all_number_chars(s: Seq<char>) -> bool {
    forall|i: int| 0 <= i < s.len() ==> is_digit_char(s[i]) || s[i] == '.'
}

pub open spec fn has_digit(s: Seq<char>) -> bool {
    exists|i: int| 0 <= i < s.len() && is_digit_char(s[i])
}

/// The grammar of a literal's number part: digits with at most one decimal
/// point and at least one digit, so `7`, `007`, `1.`, `.5` and `12.50` are
/// number parts while `1.2.3` and `-1` are not.
pub open spec fn is_number_lit(s: Seq<char>) -> bool {
    all_number_chars(s) && count_dots(s) <= 1 && has_digit(s)
}

/// Value of the digits of the text read left to right, ignoring any `.`.
pub open spec fn mantissa_of(s: Seq<char>) -> int
    decreases s.len(),
{
    if s.len() == 0 {
        0
    } else if is_digit_char(s.last()) {
        mantissa_of(s.drop_last()) * 10 + digit_val(s.last())
    } else {
        mantissa_of(s.drop_last())
    }
}

/// How many characters follow the first `.` of the text.
pub open spec fn scale_of(s: Seq<char>) -> int
    decreases s.len(),
{
    if s.len() == 0 {
        0
    } else if has_dot(s.drop_last()) {
        scale_of(s.drop_last()) + 1
    } else {
        0
    }
}

proof fn lemma_mantissa_nonneg(s: Seq<char>)
    ensures
        mantissa_of(s) >= 0,
    decreases s.len(),
{
    if s.len() > 0 {
        lemma_mantissa_nonneg(s.drop_last());
    }
}

proof fn lemma_mantissa_monotone(s: Seq<char>, i: int)
    requires
        0 <= i <= s.len(),
    ensures
        mantissa_of(s.take(i)) <= mantissa_of(s),
    decreases s.len(),
{
    if i == s.len() {
        assert(s.take(i) =~= s);
    } else {
        let t = s.drop_last();
        assert(s.take(i) =~= t.take(i));
        lemma_mantissa_monotone(t, i);
        lemma_mantissa_nonneg(t);
    }
}

proof fn lemma_count_dots_monotone(s: Seq<char>, i: int)
    requires
        0 <= i <= s.len(),
    ensures
        count_dots(s.take(i)) <= count_dots(s),
    decreases s.len(),
{
    if i == s.len() {
        assert(s.take(i) =~= s);
    } else {
        let t = s.drop_last();
        assert(s.take(i) =~= t.take(i));
        lemma_count_dots_monotone(t, i);
    }
}

/// A non-negative fixed-point decimal magnitude: the value is
/// `mantissa / 10^scale`. `12.50` is held as mantissa 1250 with scale 2, so
/// the written form of a source column survives the trip through the model.
#[derive(Clone, Copy, PartialEq, Eq, Structural, Debug)]
pub struct Amount {
    pub mantissa: u64,
    pub scale: usize,
}

pub open spec fn is_exp_marker(c: char) -> bool {
    c == 'e' || c == 'E'
}

/// Index of the first exponent marker, or the length when there is none.
pub open spec fn exp_split(s: Seq<char>) -> int
    decreases s.len(),
{
    if s.len() == 0 {
        0
    } else if is_exp_marker(s.first()) {
        0
    } else {
        1 + exp_split(s.drop_first())
    }
}

/// The text with one leading `+`, if any, removed.
pub open spec fn unsigned_of(s: Seq<char>) -> Seq<char> {
    if s.len() > 0 && s[0] == '+' {
        s.drop_first()
    } else {
        s
    }
}

/// What stands before the exponent marker.
pub open spec fn number_part(u: Seq<char>) -> Seq<char> {
    u.take(exp_split(u))
}

/// What stands after the exponent marker.
pub open spec fn exp_part_of(u: Seq<char>) -> Seq<char> {
    u.skip(exp_split(u) + 1)
}

/// The exponent's digits, its sign, if any, removed.
pub open spec fn exp_digits(s: Seq<char>) -> Seq<char> {
    if s.len() > 0 && (s[0] == '+' || s[0] == '-') {
        s.drop_first()
    } else {
        s
    }
}

/// A well-formed exponent: an optional sign followed by at least one digit.
pub open spec fn is_exp_part(s: Seq<char>) -> bool {
    exp_digits(s).len() >= 1 && (forall|i: int|
        0 <= i < exp_digits(s).len() ==> is_digit_char(#[trigger] exp_digits(s)[i]))
}

/// The signed value of a well-formed exponent.
pub open spec fn exp_value(s: Seq<char>) -> int {
    if s.len() > 0 && s[0] == '-' {
        -mantissa_of(exp_digits(s))
    } else {
        mantissa_of(exp_digits(s))
    }
}

/// An unsigned float literal: a number part (digits with at most one decimal
/// point and at least one digit) and, optionally, an exponent marker with a
/// well-formed exponent, matching what `str::parse::<f64>` accepts once the
/// sign and the infinite and not-a-number forms are set aside.
pub open spec fn is_float_lit(u: Seq<char>) -> bool {
    &&& is_number_lit(number_part(u))
    &&& (exp_split(u) == u.len() || is_exp_part(exp_part_of(u)))
}

/// The literal's exponent, zero when it has none.
pub open spec fn float_exp(u: Seq<char>) -> int {
    if exp_split(u) == u.len() {
        0
    } else {
        exp_value(exp_part_of(u))
    }
}

pub open spec fn pow10(k: nat) -> nat
    decreases k,
{
    if k == 0 {
        1nat
    } else {
        10 * pow10((k - 1) as nat)
    }
}

/// What lenient numeric coercion makes of a column's text: the empty string
/// and a single `.` stand for zero; otherwise the text must be a float
/// literal with an optional leading `+` and an optional exponent (negative
/// values, `inf` and `NaN` are refused, their magnitudes cannot stand in a
/// quantity), and its value is held exactly: fraction digits and a negative
/// exponent raise the scale, a positive exponent lowers it and then
/// multiplies into the mantissa. Refused at the machine's limits alone:
/// a mantissa beyond `u64` or a scale beyond `usize`.
pub open spec fn spec_parse_amount(s: Seq<char>) -> Option<Amount> {
    if s.len() == 0 || (s.len() == 1 && s[0] == '.') {
        Some(Amount { mantissa: 0, scale: 0 })
    } else {
        let u = unsigned_of(s);
        if !is_float_lit(u) {
            None
        } else {
            let m = mantissa_of(number_part(u));
            let f = scale_of(number_part(u));
            let e = float_exp(u);
            if e <= f {
                if m <= u64::MAX && f - e <= usize::MAX {
                    Some(Amount { mantissa: m as u64, scale: (f - e) as usize })
                } else {
                    None
                }
            } else {
                let mm = m * pow10((e - f) as nat);
                if mm <= u64::MAX {
                    Some(Amount { mantissa: mm as u64, scale: 0 })
                } else {
                    None
                }
            }
        }
    }
}

proof fn lemma_exp_split_at(s: Seq<char>, k: int)
    requires
        0 <= k <= s.len(),
        forall|j: int| 0 <= j < k ==> !is_exp_marker(s[j]),
        k < s.len() ==> is_exp_marker(s[k]),
    ensures
        exp_split(s) == k,
    decreases s.len(),
{
    if s.len() == 0 {
    } else if is_exp_marker(s.first()) {
        if k > 0 {
            assert(!is_exp_marker(s[0]));
        }
    } else {
        assert(k >= 1) by {
            if k == 0 {
                assert(is_exp_marker(s[0]));
            }
        }
        let t = s.drop_first();
        assert(forall|j: int| 0 <= j < k - 1 ==> !is_exp_marker(#[trigger] t[j]));
        assert(k - 1 < t.len() ==> is_exp_marker(t[k - 1]));
        lemma_exp_split_at(t, k - 1);
    }
}

proof fn lemma_pow10_pos(k: nat)
    ensures
        pow10(k) >= 1,
    decreases k,
{
    if k > 0 {
        lemma_pow10_pos((k - 1) as nat);
    }
}

proof fn lemma_pow10_mono(a: nat, b: nat)
    requires
        a <= b,
    ensures
        pow10(a) <= pow10(b),
    decreases b,
{
    if a < b {
        lemma_pow10_mono(a, (b - 1) as nat);
        lemma_pow10_pos((b - 1) as nat);
    }
}

proof fn lemma_pow10_twenty()
    ensures
        pow10(20) > u64::MAX,
{
    reveal_with_fuel(pow10, 21);
}

proof fn lemma_pow10_adds(a: nat, b: nat)
    ensures
        pow10(a + b) == pow10(a) * pow10(b),
    decreases b,
{
    if b == 0 {
        assert(pow10(a + 0) == pow10(a) * 1);
    } else {
        lemma_pow10_adds(a, (b - 1) as nat);
        assert(pow10(a + b) == 10 * pow10((a + b - 1) as nat));
        assert(10 * (pow10(a) * pow10((b - 1) as nat)) == pow10(a) * (10 * pow10(
            (b - 1) as nat,
        ))) by (nonlinear_arith);
    }
}

proof fn lemma_mul_pow10_mono(m: int, a: nat, b: nat)
    requires
        m >= 0,
        a <= b,
    ensures
        m * pow10(a) <= m * pow10(b),
{
    lemma_pow10_adds(a, (b - a) as nat);
    lemma_pow10_pos(a);
    lemma_pow10_pos((b - a) as nat);
    assert(m * pow10(b) >= m * pow10(a)) by (nonlinear_arith)
        requires
            m >= 0,
            pow10(a) >= 1,
            pow10((b - a) as nat) >= 1,
            pow10(b) == pow10(a) * pow10((b - a) as nat),
    ;
}

/// The first exponent marker of the text at or after `start`, or the length
/// when there is none.
fn find_marker(s: &str, start: usize) -> (k: usize)
    requires
        start <= s@.len(),
    ensures
        start <= k <= s@.len(),
        k < s@.len() ==> is_exp_marker(s@[k as int]),
        forall|j: int| start <= j < k ==> !is_exp_marker(s@[j]),
{
    let n = s.unicode_len();
    let mut k: usize = start;
    while k < n
        invariant
            start <= k <= n,
            n == s@.len(),
            forall|j: int| start <= j < k ==> !is_exp_marker(s@[j]),
        decreases n - k,
    {
        let c = s.get_char(k);
        if c == 'e' || c == 'E' {
            return k;
        }
        k = k + 1;
    }
    k
}

/// Scans the number part between `start` and `end`: its digit value and how
/// many digits follow the decimal point, or nothing where the grammar or the
/// mantissa limit is broken.
fn scan_number(s: &str, start: usize, end: usize) -> (r: Option<(u64, usize)>)
    requires
        start <= end,
        end <= s@.len(),
    ensures
        r is Some <==> (is_number_lit(s@.subrange(start as int, end as int)) && mantissa_of(
            s@.subrange(start as int, end as int),
        ) <= u64::MAX),
        r matches Some((m, f)) ==> m as int == mantissa_of(
            s@.subrange(start as int, end as int),
        ) && f as int == scale_of(s@.subrange(start as int, end as int)),
{
    let ghost num = s@.subrange(start as int, end as int);
    let mut mantissa: u64 = 0;
    let mut scale: usize = 0;
    let mut seen_dot = false;
    let mut seen_digit = false;
    let mut i: usize = start;
    while i < end
        invariant
            start <= i <= end <= s@.len(),
            num == s@.subrange(start as int, end as int),
            forall|j: int| 0 <= j < i - start ==> is_digit_char(#[trigger] num[j]) || num[j]
                == '.',
            count_dots(num.take(i - start)) <= 1,
            seen_dot == (count_dots(num.take(i - start)) == 1),
            seen_digit == has_digit(num.take(i - start)),
            mantissa as int == mantissa_of(num.take(i - start)),
            scale as int == scale_of(num.take(i - start)),
            scale <= i - start,
        decreases end - i,
    {
        let c = s.get_char(i);
        proof {
            assert(num[i - start] == s@[i as int]);
            assert(num.take(i - start + 1).drop_last() =~= num.take(i - start));
            assert(num.take(i - start + 1).last() == num[i - start]);
        }
        let uv = c as u32;
        if c == '.' {
            if seen_dot {
                proof {
                    lemma_count_dots_monotone(num, i - start + 1);
                }
                return None;
            }
            seen_dot = true;
        } else if 48 <= uv && uv <= 57 {
            let d: u64 = (uv - 48) as u64;
            if mantissa > 1844674407370955161u64 || (mantissa == 1844674407370955161u64 && d
                > 5) {
                proof {
                    assert(mantissa_of(num.take(i - start + 1)) > u64::MAX);
                    lemma_mantissa_monotone(num, i - start + 1);
                }
                return None;
            }
            mantissa = mantissa * 10 + d;
            seen_digit = true;
            if seen_dot {
                scale = scale + 1;
            }
        } else {
            proof {
                assert(!(is_digit_char(num[i - start]) || num[i - start] == '.'));
            }
            return None;
        }
        proof {
            if seen_digit {
                assert(has_digit(num.take(i - start + 1)));
            } else {
                assert(forall|j: int|
                    0 <= j < i - start + 1 ==> !is_digit_char(
                        #[trigger] num.take(i - start + 1)[j],
                    ));
            }
        }
        i = i + 1;
    }
    proof {
        assert(num.take(end - start) =~= num);
    }
    if !seen_digit {
        return None;
    }
    Some((mantissa, scale))
}

/// Scans an exponent: its sign and digit value, the value exact unless it
/// outgrows even `u128`, or nothing where the exponent grammar is broken.
fn scan_exponent(s: &str, pos: usize) -> (r: Option<(bool, u128, bool)>)
    requires
        pos <= s@.len(),
    ensures
        r is Some <==> is_exp_part(s@.skip(pos as int)),
        r matches Some((neg, emag, ovf)) ==> neg == (s@.skip(pos as int)[0] == '-'),
        r matches Some((neg, emag, ovf)) ==> (!ovf ==> emag as int == mantissa_of(
            exp_digits(s@.skip(pos as int)),
        )),
        r matches Some((neg, emag, ovf)) ==> (ovf ==> mantissa_of(
            exp_digits(s@.skip(pos as int)),
        ) > u128::MAX),
{
    let ghost ep = s@.skip(pos as int);
    let n = s.unicode_len();
    if pos >= n {
        proof {
            assert(exp_digits(ep).len() == 0);
        }
        return None;
    }
    let c0 = s.get_char(pos);
    let neg = c0 == '-';
    let idx0: usize = if c0 == '-' || c0 == '+' {
        pos + 1
    } else {
        pos
    };
    let ghost dg = exp_digits(ep);
    proof {
        assert(ep[0] == s@[pos as int]);
        assert(dg =~= s@.subrange(idx0 as int, n as int));
    }
    if idx0 >= n {
        proof {
            assert(dg.len() == 0);
        }
        return None;
    }
    let mut emag: u128 = 0;
    let mut ovf = false;
    let mut i: usize = idx0;
    while i < n
        invariant
            pos < idx0 + 1,
            idx0 <= i <= n,
            n == s@.len(),
            dg == exp_digits(s@.skip(pos as int)),
            dg =~= s@.subrange(idx0 as int, n as int),
            forall|j: int| 0 <= j < i - idx0 ==> is_digit_char(#[trigger] dg[j]),
            !ovf ==> emag as int == mantissa_of(dg.take(i - idx0)),
            ovf ==> mantissa_of(dg.take(i - idx0)) > u128::MAX,
        decreases n - i,
    {
        let c = s.get_char(i);
        proof {
            assert(dg[i - idx0] == s@[i as int]);
            assert(dg.take(i - idx0 + 1).drop_last() =~= dg.take(i - idx0));
            assert(dg.take(i - idx0 + 1).last() == dg[i - idx0]);
        }
        let uv = c as u32;
        if !(48 <= uv && uv <= 57) {
            proof {
                assert(!is_digit_char(dg[i - idx0]));
            }
            return None;
        }
        let d: u128 = (uv - 48) as u128;
        if ovf {
            proof {
                lemma_mantissa_nonneg(dg.take(i - idx0));
            }
        } else if emag > 34028236692093846346337460743176821145u128 || (emag
            == 34028236692093846346337460743176821145u128 && d > 5) {
            proof {
                assert(mantissa_of(dg.take(i - idx0 + 1)) > u128::MAX);
            }
            ovf = true;
        } else {
            emag = emag * 10 + d;
        }
        i = i + 1;
    }
    proof {
        assert(dg.take(n - idx0) =~= dg);
        assert(is_exp_part(ep));
    }
    Some((neg, emag, ovf))
}

impl Amount {
    pub open spec fn spec_zero() -> Amount {
        Amount { mantissa: 0, scale: 0 }
    }

    pub fn zero() -> (r: Amount)
        ensures
            r == Amount::spec_zero(),
    {
        Amount { mantissa: 0, scale: 0 }
    }

    /// Lenient numeric coercion of one column value.
    #[verifier::rlimit(80)]
    pub fn parse(s: &str) -> (r: Option<Amount>)
        ensures
            r == spec_parse_amount(s@),
    {
        let n = s.unicode_len();
        if n == 0 {
            return Some(Amount::zero());
        }
        if n == 1 && s.get_char(0) == '.' {
            return Some(Amount::zero());
        }
        let start: usize = if s.get_char(0) == '+' {
            1
        } else {
            0
        };
        let ghost uu = unsigned_of(s@);
        proof {
            assert(uu =~= s@.skip(start as int));
        }
        let k = find_marker(s, start);
        proof {
            assert forall|j: int| 0 <= j < k - start implies !is_exp_marker(uu[j]) by {
                assert(uu[j] == s@[j + start]);
            }
            if k < n {
                assert(uu[k - start] == s@[k as int]);
            }
            lemma_exp_split_at(uu, k - start);
            assert(number_part(uu) =~= s@.subrange(start as int, k as int));
        }
        let (m, f) = match scan_number(s, start, k) {
            Some(p) => p,
            None => {
                proof {
                    if is_float_lit(uu) {
                        let m0 = mantissa_of(number_part(uu));
                        let f0 = scale_of(number_part(uu));
                        let e0 = float_exp(uu);
                        if e0 > f0 {
                            lemma_pow10_pos((e0 - f0) as nat);
                            lemma_mantissa_nonneg(number_part(uu));
                            assert(m0 * pow10((e0 - f0) as nat) >= m0) by (nonlinear_arith)
                                requires
                                    m0 >= 0,
                                    pow10((e0 - f0) as nat) >= 1,
                            ;
                        }
                    }
                }
                return None;
            },
        };
        if k == n {
            proof {
                assert(exp_split(uu) == uu.len());
            }
            return Some(Amount { mantissa: m, scale: f });
        }
        proof {
            assert(exp_part_of(uu) =~= s@.skip(k + 1));
        }
        let (neg, emag, ovf) = match scan_exponent(s, k + 1) {
            Some(t) => t,
            None => {
                return None;
            },
        };
        let ghost ff = scale_of(number_part(uu));
        let ghost ee = float_exp(uu);
        proof {
            assert(is_float_lit(uu));
            lemma_mantissa_nonneg(exp_digits(exp_part_of(uu)));
        }
        if neg {
            proof {
                assert(ee == -mantissa_of(exp_digits(exp_part_of(uu))));
                assert(ee <= 0 <= ff);
            }
            if ovf {
                proof {
                    assert(ff - ee > u128::MAX);
                    assert(usize::MAX <= u128::MAX);
                }
                return None;
            }
            proof {
                assert(ff - ee == f as int + emag as int);
            }
            if emag > u128::MAX - (f as u128) {
                proof {
                    assert(usize::MAX <= u128::MAX);
                }
                return None;
            }
            let total: u128 = (f as u128) + emag;
            if total > (usize::MAX as u128) {
                return None;
            }
            return Some(Amount { mantissa: m, scale: total as usize });
        }
        proof {
            assert(ee == mantissa_of(exp_digits(exp_part_of(uu))));
            assert(ee >= 0);
        }
        if ovf {
            proof {
                assert(usize::MAX <= u64::MAX);
                assert(ee > ff);
                assert(ee - ff >= 20);
                lemma_pow10_twenty();
                lemma_pow10_mono(20, (ee - ff) as nat);
            }
            if m == 0 {
                proof {
                    assert(mantissa_of(number_part(uu)) * pow10((ee - ff) as nat) == 0)
                        by (nonlinear_arith)
                        requires
                            mantissa_of(number_part(uu)) == 0,
                    ;
                }
                return Some(Amount { mantissa: 0, scale: 0 });
            }
            proof {
                assert((m as int) * pow10((ee - ff) as nat) >= pow10((ee - ff) as nat))
                    by (nonlinear_arith)
                    requires
                        m >= 1,
                        pow10((ee - ff) as nat) >= 0,
                ;
            }
            return None;
        }
        if emag <= (f as u128) {
            proof {
                assert(ee <= ff);
                assert(ff - ee == f as int - emag as int);
            }
            return Some(Amount { mantissa: m, scale: f - (emag as usize) });
        }
        let d128: u128 = emag - (f as u128);
        proof {
            assert(ee - ff == d128 as int);
        }
        if d128 >= 20 {
            proof {
                lemma_pow10_twenty();
                lemma_pow10_mono(20, (ee - ff) as nat);
            }
            if m == 0 {
                proof {
                    assert(mantissa_of(number_part(uu)) * pow10((ee - ff) as nat) == 0)
                        by (nonlinear_arith)
                        requires
                            mantissa_of(number_part(uu)) == 0,
                    ;
                }
                return Some(Amount { mantissa: 0, scale: 0 });
            }
            proof {
                assert((m as int) * pow10((ee - ff) as nat) >= pow10((ee - ff) as nat))
                    by (nonlinear_arith)
                    requires
                        m >= 1,
                        pow10((ee - ff) as nat) >= 0,
                ;
            }
            return None;
        }
        let d: u64 = d128 as u64;
        let mut acc: u64 = m;
        let mut j: u64 = 0;
        while j < d
            invariant
                j <= d,
                1 <= d <= 19,
                n == s@.len(),
                n >= 1,
                !(n == 1 && s@[0] == '.'),
                uu == unsigned_of(s@),
                is_float_lit(uu),
                ff == scale_of(number_part(uu)),
                ee == float_exp(uu),
                ee > ff,
                d as int == ee - ff,
                m as int == mantissa_of(number_part(uu)),
                acc as int == (m as int) * pow10(j as nat),
            decreases d - j,
        {
            proof {
                assert(pow10((j + 1) as nat) == 10 * pow10(j as nat));
            }
            if acc > 1844674407370955161u64 {
                proof {
                    assert((m as int) * pow10((j + 1) as nat) > u64::MAX) by (nonlinear_arith)
                        requires
                            acc as int == (m as int) * pow10(j as nat),
                            acc as int > 1844674407370955161,
                            pow10((j + 1) as nat) == 10 * pow10(j as nat),
                    ;
                    lemma_mul_pow10_mono(m as int, (j + 1) as nat, d as nat);
                }
                return None;
            }
            let next = acc * 10;
            proof {
                assert(next as int == (m as int) * pow10((j + 1) as nat)) by (nonlinear_arith)
                    requires
                        next as int == 10 * (acc as int),
                        acc as int == (m as int) * pow10(j as nat),
                        pow10((j + 1) as nat) == 10 * pow10(j as nat),
                ;
            }
            acc = next;
            j = j + 1;
        }
        Some(Amount { mantissa: acc, scale: 0 })
    }
}

/// The digit character of a value below ten.
pub open spec fn digit_char(d: int) -> char {
    if d == 0 {
        '0'
    } else if d == 1 {
        '1'
    } else if d == 2 {
        '2'
    } else if d == 3 {
        '3'
    } else if d == 4 {
        '4'
    } else if d == 5 {
        '5'
    } else if d == 6 {
        '6'
    } else if d == 7 {
        '7'
    } else if d == 8 {
        '8'
    } else {
        '9'
    }
}

/// Decimal digits of a number, most significant first, no leading zeros
/// except for the number zero itself.
pub open spec fn spec_digits(n: nat) -> Seq<char>
    decreases n,
{
    if n < 10 {
        seq![digit_char(n as int)]
    } else {
        spec_digits(n / 10) + seq![digit_char((n % 10) as int)]
    }
}

pub open spec fn zero_chars(k: int) -> Seq<char> {
    Seq::new(k as nat, |i: int| '0')
}

/// The written form of a magnitude: the digits of the mantissa with a decimal
/// point placed `scale` digits from the right, zero-padded on the left when
/// the mantissa is shorter than the scale (`Amount { 50, 3 }` is `0.050`).
pub open spec fn spec_render_amount(a: Amount) -> Seq<char> {
    let d = spec_digits(a.mantissa as nat);
    if a.scale == 0 {
        d
    } else if d.len() > a.scale {
        d.take(d.len() - a.scale) + seq!['.'] + d.skip(d.len() - a.scale)
    } else {
        seq!['0', '.'] + zero_chars(a.scale - d.len()) + d
    }
}

fn digit_char_of(d: u64) -> (c: char)
    requires
        d < 10,
    ensures
        c == digit_char(d as int),
{
    match d {
        0 => '0',
        1 => '1',
        2 => '2',
        3 => '3',
        4 => '4',
        5 => '5',
        6 => '6',
        7 => '7',
        8 => '8',
        _ => '9',
    }
}

fn digits_of(n: u64) -> (r: Vec<char>)
    ensures
        r@ == spec_digits(n as nat),
    decreases n,
{
    if n < 10 {
        let mut v: Vec<char> = Vec::new();
        v.push(digit_char_of(n));
        proof {
            assert(v@ =~= seq![digit_char(n as int)]);
        }
        v
    } else {
        let mut v = digits_of(n / 10);
        v.push(digit_char_of(n % 10));
        proof {
            assert(v@ =~= spec_digits((n / 10) as nat) + seq![digit_char((n % 10) as int)]);
        }
        v
    }
}

impl Amount {
    /// Writes the magnitude out, as `spec_render_amount` says.
    pub fn render(&self) -> (r: String)
        ensures
            r@ == spec_render_amount(*self),
    {
        let d = digits_of(self.mantissa);
        if self.scale == 0 {
            return chars_to_string(&d);
        }
        let mut out: Vec<char> = Vec::new();
        if d.len() > self.scale {
            let split = d.len() - self.scale;
            let mut i: usize = 0;
            while i < split
                invariant
                    i <= split,
                    split <= d.len(),
                    out@ == d@.take(i as int),
                decreases split - i,
            {
                out.push(d[i]);
                proof {
                    assert(d@.take(i as int).push(d@[i as int]) =~= d@.take(i + 1));
                }
                i = i + 1;
            }
            out.push('.');
            let mut j: usize = split;
            while j < d.len()
                invariant
                    split <= j <= d.len(),
                    out@ == d@.take(split as int) + seq!['.'] + d@.subrange(split as int, j as int),
                decreases d.len() - j,
            {
                out.push(d[j]);
                proof {
                    assert((d@.take(split as int) + seq!['.'] + d@.subrange(
                        split as int,
                        j as int,
                    )).push(d@[j as int]) =~= d@.take(split as int) + seq!['.'] + d@.subrange(
                        split as int,
                        j + 1,
                    ));
                }
                j = j + 1;
            }
            proof {
                assert(d@.subrange(split as int, d@.len() as int) =~= d@.skip(split as int));
                assert(out@ =~= spec_render_amount(*self));
            }
        } else {
            out.push('0');
            out.push('.');
            proof {
                assert(out@ =~= seq!['0', '.'] + zero_chars(0));
            }
            let pad = self.scale - d.len();
            let mut i: usize = 0;
            while i < pad
                invariant
                    i <= pad,
                    out@ == seq!['0', '.'] + zero_chars(i as int),
                decreases pad - i,
            {
                out.push('0');
                proof {
                    assert((seq!['0', '.'] + zero_chars(i as int)).push('0') =~= seq!['0', '.']
                        + zero_chars(i + 1));
                }
                i = i + 1;
            }
            let mut j: usize = 0;
            while j < d.len()
                invariant
                    j <= d.len(),
                    pad == self.scale - d@.len(),
                    out@ == seq!['0', '.'] + zero_chars(pad as int) + d@.take(j as int),
                decreases d.len() - j,
            {
                out.push(d[j]);
                proof {
                    assert((seq!['0', '.'] + zero_chars(pad as int) + d@.take(j as int)).push(
                        d@[j as int],
                    ) =~= seq!['0', '.'] + zero_chars(pad as int) + d@.take(j + 1));
                }
                j = j + 1;
            }
            proof {
                assert(d@.take(d@.len() as int) =~= d@);
                assert(out@ =~= spec_render_amount(*self));
            }
        }
        chars_to_string(&out)
    }
}

/// A magnitude paired with its unit of measure.
#[derive(Clone, Copy, PartialEq, Eq, Structural, Debug)]
pub struct Quantity(pub Amount, pub Unit);

impl Quantity {
    /// The wire form of a quantity: the magnitude followed by the unit suffix.
    pub open spec fn spec_render(self) -> Seq<char> {
        spec_render_amount(self.0) + self.1.spec_suffix()
    }

    pub fn render(&self) -> (r: String)
        ensures
            r@ == self.spec_render(),
    {
        let mut s = self.0.render();
        s.append(self.1.suffix());
        s
    }
}

/// The canonical ingested entity: one source row after alias mapping, lenient
/// numeric coercion and unit assignment.
#[derive(Debug, PartialEq, Eq)]
pub struct Food {
    pub code: FoodCode,
    pub name: String,
    pub energy: Quantity,
    pub fiber: Quantity,
    pub carbohydrates: Quantity,
    pub lipids: Quantity,
    pub protein: Quantity,
}

impl Clone for Food {
    fn clone(&self) -> (r: Food)
        ensures
            r == *self,
    {
        Food {
            code: FoodCode(self.code.0.clone()),
            name: self.name.clone(),
            energy: self.energy,
            fiber: self.fiber,
            carbohydrates: self.carbohydrates,
            lipids: self.lipids,
            protein: self.protein,
        }
    }
}

} // verus!
