//! Validation of the request-timeout command-line value: the string
//! must be a decimal number — optional sign, digits with at most one
//! decimal point, and an optional exponent part — and its value must
//! be zero or positive, before any network action is taken. On
//! success the value is returned in milliseconds, rounded down, with
//! values beyond the millisecond range saturated.

use vstd::prelude::*;

use crate::chartext::str_chars;

verus! {

/// A decimal digit character.
pub open spec fn is_digit(c: char) -> bool {
    ('0' as u32) <= (c as u32) <= ('9' as u32)
}

/// The numeric value of a digit character.
pub open spec fn digit_val(c: char) -> int {
    (c as u32) - ('0' as u32)
}

/// The string with one leading sign character removed, if present.
pub open spec fn strip_sign(s: Seq<char>) -> Seq<char> {
    if s.len() > 0 && (s[0] == '+' || s[0] == '-') {
        s.drop_first()
    } else {
        s
    }
}

/// The string carries a leading minus sign.
pub open spec fn has_minus_sign(s: Seq<char>) -> bool {
    s.len() > 0 && s[0] == '-'
}

/// An exponent marker.
pub open spec fn is_exp_marker(c: char) -> bool {
    c == 'e' || c == 'E'
}

/// The position of the first exponent marker, or the length when
/// there is none.
pub open spec fn first_exp(u: Seq<char>) -> int
    decreases u.len(),
{
    if u.len() == 0 {
        0
    } else if is_exp_marker(u[0]) {
        0
    } else {
        1 + first_exp(u.drop_first())
    }
}

pub proof fn lemma_first_exp(u: Seq<char>)
    ensures
        0 <= first_exp(u) <= u.len(),
        first_exp(u) < u.len() ==> is_exp_marker(u[first_exp(u)]),
        forall|k: int| 0 <= k < first_exp(u) ==> !is_exp_marker(u[k]),
    decreases u.len(),
{
    if u.len() > 0 && !is_exp_marker(u[0]) {
        lemma_first_exp(u.drop_first());
        assert(forall|k: int|
            0 <= k < first_exp(u) ==> k == 0 || u[k] == u.drop_first()[k - 1]);
    }
}

/// The part of the number before any exponent marker.
pub open spec fn mantissa(u: Seq<char>) -> Seq<char> {
    u.take(first_exp(u))
}

/// The number carries an exponent part.
pub open spec fn has_exp(u: Seq<char>) -> bool {
    first_exp(u) < u.len()
}

/// Everything after the exponent marker.
pub open spec fn exp_region(u: Seq<char>) -> Seq<char> {
    u.skip(first_exp(u) + 1)
}

/// The exponent is written negative.
pub open spec fn exp_is_negative(u: Seq<char>) -> bool {
    exp_region(u).len() > 0 && exp_region(u)[0] == '-'
}

/// The digits of the exponent, after its optional sign.
pub open spec fn exp_digits(u: Seq<char>) -> Seq<char> {
    strip_sign(exp_region(u))
}

/// A well-formed mantissa: only digits and at most one decimal point,
/// with at least one digit.
pub open spec fn spec_mantissa_ok(m: Seq<char>) -> bool {
    &&& forall|i: int| 0 <= i < m.len() ==> is_digit(#[trigger] m[i]) || m[i] == '.'
    &&& exists|i: int| 0 <= i < m.len() && is_digit(#[trigger] m[i])
    &&& forall|i: int, j: int|
        0 <= i < j < m.len() && #[trigger] m[i] == '.' ==> #[trigger] m[j] != '.'
}

/// A well-formed exponent part: absent, or an optional sign followed
/// by at least one digit and nothing else.
pub open spec fn spec_exp_ok(u: Seq<char>) -> bool {
    has_exp(u) ==> exp_digits(u).len() > 0 && (forall|i: int|
        0 <= i < exp_digits(u).len() ==> is_digit(#[trigger] exp_digits(u)[i]))
}

/// An unsigned decimal number, exponent form included.
pub open spec fn spec_unsigned_number(u: Seq<char>) -> bool {
    spec_mantissa_ok(mantissa(u)) && spec_exp_ok(u)
}

/// A decimal number with an optional sign.
pub open spec fn spec_is_number(s: Seq<char>) -> bool {
    spec_unsigned_number(strip_sign(s))
}

/// Every mantissa digit is zero, so the written number has the value
/// zero whatever its sign or exponent.
pub open spec fn spec_zero_digits(u: Seq<char>) -> bool {
    forall|i: int|
        0 <= i < mantissa(u).len() && is_digit(#[trigger] mantissa(u)[i]) ==> digit_val(
            mantissa(u)[i],
        ) == 0
}

/// The position of the first decimal point, or the length when there
/// is none.
pub open spec fn first_dot(m: Seq<char>) -> int
    decreases m.len(),
{
    if m.len() == 0 {
        0
    } else if m[0] == '.' {
        0
    } else {
        1 + first_dot(m.drop_first())
    }
}

pub proof fn lemma_first_dot(m: Seq<char>)
    ensures
        0 <= first_dot(m) <= m.len(),
        first_dot(m) < m.len() ==> m[first_dot(m)] == '.',
        forall|k: int| 0 <= k < first_dot(m) ==> m[k] != '.',
    decreases m.len(),
{
    if m.len() > 0 && m[0] != '.' {
        lemma_first_dot(m.drop_first());
        assert(forall|k: int|
            0 <= k < first_dot(m) ==> k == 0 || m[k] == m.drop_first()[k - 1]);
    }
}

/// The value of a sequence of digit characters, most significant
/// first.
pub open spec fn digits_value(ds: Seq<char>) -> int
    decreases ds.len(),
{
    if ds.len() == 0 {
        0
    } else {
        digits_value(ds.drop_last()) * 10 + digit_val(ds.last())
    }
}

/// Powers of ten.
pub open spec fn pow10(n: nat) -> int
    decreases n,
{
    if n == 0 {
        1
    } else {
        10 * pow10((n - 1) as nat)
    }
}

/// The digits before the decimal point.
pub open spec fn int_digits(m: Seq<char>) -> Seq<char> {
    m.take(first_dot(m))
}

/// The digits after the decimal point.
pub open spec fn frac_digits(m: Seq<char>) -> Seq<char> {
    if first_dot(m) < m.len() {
        m.skip(first_dot(m) + 1)
    } else {
        Seq::empty()
    }
}

/// All mantissa digits, the decimal point dropped.
pub open spec fn all_digits(u: Seq<char>) -> Seq<char> {
    int_digits(mantissa(u)) + frac_digits(mantissa(u))
}

/// The signed exponent value.
pub open spec fn exp_value(u: Seq<char>) -> int {
    if !has_exp(u) {
        0
    } else if exp_is_negative(u) {
        -digits_value(exp_digits(u))
    } else {
        digits_value(exp_digits(u))
    }
}

/// How many decimal places the digit string moves to express
/// milliseconds: the exponent, three places up for seconds to
/// milliseconds, and one place down per fraction digit.
pub open spec fn spec_shift(u: Seq<char>) -> int {
    exp_value(u) + 3 - frac_digits(mantissa(u)).len()
}

/// A run of zero characters.
pub open spec fn zero_chars(n: int) -> Seq<char> {
    Seq::new(n as nat, |i: int| '0')
}

/// The digit string shifted into milliseconds: zeros appended for a
/// nonnegative shift; for a negative one the digits that fall below
/// the millisecond are dropped, rounding the value down.
pub open spec fn spec_scaled(ds: Seq<char>, shift: int) -> Seq<char> {
    if shift >= 0 {
        ds + zero_chars(shift)
    } else if ds.len() + shift > 0 {
        ds.take(ds.len() + shift)
    } else {
        Seq::empty()
    }
}

/// The shift assembled from an exponent magnitude, its sign and the
/// fraction length.
pub open spec fn spec_shift_from(emag: int, eneg: bool, lf: int) -> int {
    (if eneg {
        -emag
    } else {
        emag
    }) + 3 - lf
}

/// The milliseconds a digit string yields under a shift, saturated at
/// the millisecond range.
pub open spec fn spec_millis_from(ds: Seq<char>, sh: int) -> int {
    let v = digits_value(spec_scaled(ds, sh));
    if v <= u64::MAX {
        v
    } else {
        u64::MAX as int
    }
}

/// The validated timeout in milliseconds, saturated at the
/// millisecond range.
pub open spec fn spec_timeout_millis(s: Seq<char>) -> int {
    let u = strip_sign(s);
    spec_millis_from(all_digits(u), spec_shift(u))
}

proof fn lemma_digits_value_bounds(ds: Seq<char>)
    requires
        forall|i: int| 0 <= i < ds.len() ==> is_digit(#[trigger] ds[i]),
    ensures
        0 <= digits_value(ds) < pow10(ds.len()),
    decreases ds.len(),
{
    if ds.len() > 0 {
        lemma_digits_value_bounds(ds.drop_last());
        assert(is_digit(ds.last()));
        assert(digit_val(ds.last()) <= 9);
    }
}

proof fn lemma_zero_digits_value(ds: Seq<char>)
    requires
        forall|i: int| 0 <= i < ds.len() ==> digit_val(#[trigger] ds[i]) == 0,
    ensures
        digits_value(ds) == 0,
    decreases ds.len(),
{
    if ds.len() > 0 {
        lemma_zero_digits_value(ds.drop_last());
    }
}

proof fn lemma_pow10_increases(a: nat, b: nat)
    requires
        a <= b,
    ensures
        pow10(a) <= pow10(b),
        pow10(a) >= 1,
    decreases b,
{
    if b > 0 {
        if a == b {
            lemma_pow10_increases((b - 1) as nat, (b - 1) as nat);
        } else {
            lemma_pow10_increases(a, (b - 1) as nat);
        }
    }
}

/// A prefix never exceeds the whole digit string in value.
proof fn lemma_digits_prefix_le(ds: Seq<char>, k: int)
    requires
        forall|i: int| 0 <= i < ds.len() ==> is_digit(#[trigger] ds[i]),
        0 <= k <= ds.len(),
    ensures
        digits_value(ds.take(k)) <= digits_value(ds),
    decreases ds.len() - k,
{
    if k == ds.len() {
        assert(ds.take(k) =~= ds);
    } else {
        lemma_digits_prefix_le(ds, k + 1);
        assert(ds.take(k + 1).drop_last() =~= ds.take(k));
        assert(ds.take(k + 1).last() == ds[k]);
        assert(forall|i: int| 0 <= i < k ==> ds.take(k)[i] == ds[i]);
        lemma_digits_value_bounds(ds.take(k));
        assert(is_digit(ds[k]));
    }
}

/// A digit string with some nonzero digit has a nonzero value.
proof fn lemma_digits_nonzero(ds: Seq<char>, i: int)
    requires
        forall|k: int| 0 <= k < ds.len() ==> is_digit(#[trigger] ds[k]),
        0 <= i < ds.len(),
        digit_val(ds[i]) >= 1,
    ensures
        digits_value(ds) >= 1,
{
    assert(ds.take(i + 1).drop_last() =~= ds.take(i));
    assert(ds.take(i + 1).last() == ds[i]);
    assert(forall|k: int| 0 <= k < i ==> ds.take(i)[k] == ds[k]);
    lemma_digits_value_bounds(ds.take(i));
    lemma_digits_prefix_le(ds, i + 1);
}

/// A digit string with a nonzero leading digit reaches its magnitude.
#[verifier::spinoff_prover]
proof fn lemma_digits_lower(ds: Seq<char>)
    requires
        forall|i: int| 0 <= i < ds.len() ==> is_digit(#[trigger] ds[i]),
        ds.len() > 0,
        digit_val(ds[0]) >= 1,
    ensures
        digits_value(ds) >= pow10((ds.len() - 1) as nat),
    decreases ds.len(),
{
    if ds.len() == 1 {
        assert(digits_value(ds) == digits_value(ds.drop_last()) * 10 + digit_val(ds.last()));
        assert(ds.drop_last().len() == 0);
        assert(digits_value(ds.drop_last()) == 0);
        assert(ds.last() == ds[0]);
        assert(pow10(0) == 1);
        assert(digits_value(ds) >= 1);
    } else {
        let head = ds.drop_last();
        assert(head[0] == ds[0]);
        assert(forall|i: int| 0 <= i < ds.len() - 1 ==> head[i] == ds[i]);
        lemma_digits_lower(head);
        assert(digits_value(head) >= pow10((ds.len() - 2) as nat));
        assert(is_digit(ds.last()));
        assert(digit_val(ds.last()) >= 0);
        assert(digits_value(ds) == digits_value(head) * 10 + digit_val(ds.last()));
        assert(digits_value(head) * 10 >= pow10((ds.len() - 2) as nat) * 10);
        assert(pow10((ds.len() - 1) as nat) == 10 * pow10((ds.len() - 2) as nat));
        assert(digits_value(ds) >= pow10((ds.len() - 1) as nat));
    }
}

/// A leading zero digit never changes the value.
proof fn lemma_drop_leading_zero(ds: Seq<char>)
    requires
        ds.len() > 0,
        digit_val(ds[0]) == 0,
    ensures
        digits_value(ds) == digits_value(ds.drop_first()),
    decreases ds.len(),
{
    if ds.len() == 1 {
        assert(digits_value(ds) == digits_value(ds.drop_last()) * 10 + digit_val(ds.last()));
    } else {
        assert(ds.drop_last()[0] == ds[0]);
        lemma_drop_leading_zero(ds.drop_last());
        assert(ds.drop_first().drop_last() =~= ds.drop_last().drop_first());
        assert(ds.drop_first().last() == ds.last());
        assert(digits_value(ds) == digits_value(ds.drop_last()) * 10 + digit_val(ds.last()));
        assert(digits_value(ds.drop_first()) == digits_value(ds.drop_first().drop_last()) * 10
            + digit_val(ds.drop_first().last()));
    }
}

/// Appended zeros multiply the value by the matching power of ten.
proof fn lemma_append_zeros(ds: Seq<char>, k: int)
    requires
        k >= 0,
    ensures
        digits_value(ds + zero_chars(k)) == digits_value(ds) * pow10(k as nat),
    decreases k,
{
    if k == 0 {
        assert(ds + zero_chars(0) =~= ds);
    } else {
        lemma_append_zeros(ds, k - 1);
        let w = ds + zero_chars(k);
        assert(w.drop_last() =~= ds + zero_chars(k - 1));
        assert(w.last() == '0');
        assert(digit_val('0') == 0);
        assert(digits_value(w) == digits_value(w.drop_last()) * 10 + digit_val(w.last()));
        assert(pow10(k as nat) == 10 * pow10((k - 1) as nat));
        let a = digits_value(ds);
        let p = pow10((k - 1) as nat);
        assert(a * (10 * p) == (a * p) * 10) by (nonlinear_arith);
    }
}

/// The value of a digit vector, saturated at the millisecond range.
#[verifier::loop_isolation(false)]
fn digits_value_sat(ds: &Vec<char>) -> (r: u64)
    requires
        forall|i: int| 0 <= i < ds@.len() ==> is_digit(#[trigger] ds@[i]),
    ensures
        digits_value(ds@) <= u64::MAX ==> r == digits_value(ds@),
        digits_value(ds@) > u64::MAX ==> r == u64::MAX,
{
    let n: usize = ds.len();
    let mut acc: u64 = 0;
    let mut sat = false;
    let mut i: usize = 0;
    while i < n
        invariant
            i <= n,
            !sat ==> acc == digits_value(ds@.take(i as int)),
            sat ==> digits_value(ds@.take(i as int)) > u64::MAX,
        decreases n - i,
    {
        let c = ds[i];
        assert(is_digit(ds@[i as int]));
        let d: u64 = (c as u32 as u64) - ('0' as u32 as u64);
        proof {
            assert(ds@.take(i as int + 1).drop_last() =~= ds@.take(i as int));
            assert(ds@.take(i as int + 1).last() == ds@[i as int]);
            if sat {
                lemma_digits_value_bounds(ds@.take(i as int + 1));
                assert(forall|k: int| 0 <= k <= i ==> ds@.take(i as int + 1)[k] == ds@[k]);
            }
        }
        if !sat {
            match acc.checked_mul(10) {
                Some(m) => match m.checked_add(d) {
                    Some(a2) => {
                        acc = a2;
                    },
                    None => {
                        sat = true;
                    },
                },
                None => {
                    sat = true;
                },
            }
        } else {
            proof {
                lemma_digits_value_bounds(ds@.take(i as int));
            }
        }
        i = i + 1;
    }
    proof {
        assert(ds@.take(n as int) =~= ds@);
    }
    if sat {
        u64::MAX
    } else {
        acc
    }
}

/// The exact value of a short digit vector.
#[verifier::loop_isolation(false)]
fn digits_value_u128(ds: &Vec<char>) -> (r: u128)
    requires
        forall|i: int| 0 <= i < ds@.len() ==> is_digit(#[trigger] ds@[i]),
        ds@.len() <= 38,
    ensures
        r == digits_value(ds@),
{
    let n: usize = ds.len();
    let mut acc: u128 = 0;
    let mut i: usize = 0;
    while i < n
        invariant
            i <= n,
            acc == digits_value(ds@.take(i as int)),
            acc < pow10(i as nat),
        decreases n - i,
    {
        proof {
            lemma_digits_value_bounds(ds@.take(i as int));
            lemma_pow10_increases(i as nat, 37);
            assert(pow10(37) == 10000000000000000000000000000000000000) by {
                reveal_with_fuel(pow10, 39);
            }
        }
        let c = ds[i];
        assert(is_digit(ds@[i as int]));
        let d: u128 = (c as u32 as u128) - ('0' as u32 as u128);
        acc = acc * 10 + d;
        proof {
            assert(ds@.take(i as int + 1).drop_last() =~= ds@.take(i as int));
            assert(ds@.take(i as int + 1).last() == ds@[i as int]);
        }
        i = i + 1;
    }
    proof {
        assert(ds@.take(n as int) =~= ds@);
    }
    acc
}

/// Copy one region of the scanned characters.
#[verifier::loop_isolation(false)]
fn collect_region(cs: &Vec<char>, from: usize, to: usize) -> (r: Vec<char>)
    requires
        from <= to <= cs@.len(),
    ensures
        r@ == cs@.subrange(from as int, to as int),
{
    let mut r: Vec<char> = Vec::new();
    let mut k: usize = from;
    while k < to
        invariant
            from <= k <= to,
            r@ == cs@.subrange(from as int, k as int),
        decreases to - k,
    {
        r.push(cs[k]);
        assert(r@ =~= cs@.subrange(from as int, k as int + 1));
        k = k + 1;
    }
    r
}

/// Validate the request-timeout string: it must be a decimal number —
/// optional sign, digits with at most one decimal point, optional
/// exponent — and its value must be zero or positive. On success, the
/// value in milliseconds, rounded down and saturated at the range's
/// top. (An infinity or not-a-number word is rejected: no finite
/// timeout corresponds to it.)
#[verifier::loop_isolation(false)]
#[verifier::rlimit(100)]
pub fn parse_timeout(s: &str) -> (r: Result<u64, String>)
    ensures
        !spec_is_number(s@) ==> (r matches Err(e) && e@ == "Not a number."@),
        spec_is_number(s@) && has_minus_sign(s@) && !spec_zero_digits(strip_sign(s@)) ==> (
        r matches Err(e) && e@ == "Must be zero or positive number."@),
        spec_is_number(s@) && (!has_minus_sign(s@) || spec_zero_digits(strip_sign(s@))) ==> (
        r matches Ok(v) && v == spec_timeout_millis(s@)),
{
    let cs = str_chars(s);
    let n: usize = cs.len();
    let negative = n > 0 && cs[0] == '-';
    let signed: bool = n > 0 && (cs[0] == '+' || cs[0] == '-');
    let start: usize = if signed {
        1
    } else {
        0
    };
    let ghost u: Seq<char> = strip_sign(s@);
    proof {
        assert(u =~= s@.skip(start as int));
    }
    // Locate the exponent marker, if any.
    let mut exp_pos: usize = start;
    while exp_pos < n && !(cs[exp_pos] == 'e' || cs[exp_pos] == 'E')
        invariant
            start <= exp_pos <= n,
            forall|k: int| 0 <= k < exp_pos - start ==> !is_exp_marker(#[trigger] u[k]),
        decreases n - exp_pos,
    {
        exp_pos = exp_pos + 1;
    }
    proof {
        lemma_first_exp(u);
        if exp_pos < n {
            assert(is_exp_marker(u[exp_pos - start]));
        }
        assert(first_exp(u) == exp_pos - start);
    }
    let ghost m: Seq<char> = mantissa(u);
    proof {
        assert(m =~= s@.subrange(start as int, exp_pos as int));
    }
    // Validate the mantissa: digits, at most one decimal point, at
    // least one digit; watch for a nonzero digit.
    let mut i: usize = start;
    let mut digit_seen = false;
    let mut dots: usize = 0;
    let mut dot_at: usize = n;
    let mut nonzero = false;
    while i < exp_pos
        invariant
            start <= i <= exp_pos,
            forall|k: int| 0 <= k < i - start ==> is_digit(#[trigger] m[k]) || m[k] == '.',
            digit_seen == exists|k: int| 0 <= k < i - start && is_digit(#[trigger] m[k]),
            dots <= 1,
            dots == 0 <==> (forall|k: int| 0 <= k < i - start ==> m[k] != '.'),
            dots == 1 ==> start <= dot_at < i && m[dot_at - start] == '.' && (forall|k: int|
                0 <= k < dot_at - start ==> m[k] != '.') && (forall|k: int|
                dot_at - start < k < i - start ==> m[k] != '.'),
            nonzero == exists|k: int|
                0 <= k < i - start && is_digit(#[trigger] m[k]) && digit_val(m[k]) != 0,
        decreases exp_pos - i,
    {
        let c = cs[i];
        assert(m[i - start] == c);
        if c as u32 >= '0' as u32 && c as u32 <= '9' as u32 {
            digit_seen = true;
            if c as u32 != '0' as u32 {
                nonzero = true;
            }
        } else if c == '.' {
            if dots == 1 {
                // A second decimal point: not a number.
                assert(m[dot_at - start] == '.' && m[i - start] == '.' && dot_at < i);
                assert(!spec_mantissa_ok(m));
                let e = err_not_a_number();
                return Err(e);
            }
            dots = 1;
            dot_at = i;
        } else {
            // A character that belongs to no number.
            assert(!is_digit(m[i - start]) && m[i - start] != '.');
            let e = err_not_a_number();
            return Err(e);
        }
        i = i + 1;
    }
    if !digit_seen {
        assert(!spec_mantissa_ok(m));
        let e = err_not_a_number();
        return Err(e);
    }
    // Validate the exponent part, when present, and collect its
    // digits.
    let mut exp_neg = false;
    let mut evec: Vec<char> = Vec::new();
    if exp_pos < n {
        let ghost region: Seq<char> = exp_region(u);
        proof {
            assert(region =~= s@.skip(exp_pos as int + 1));
        }
        let mut ep: usize = exp_pos + 1;
        if ep < n && (cs[ep] == '+' || cs[ep] == '-') {
            exp_neg = cs[ep] == '-';
            ep = ep + 1;
        }
        let ghost edigits: Seq<char> = exp_digits(u);
        proof {
            assert(edigits =~= s@.skip(ep as int));
            assert(exp_is_negative(u) == exp_neg);
        }
        if ep >= n {
            // An exponent marker with no digits: not a number.
            assert(exp_digits(u).len() == 0);
            assert(!spec_exp_ok(u));
            let e = err_not_a_number();
            return Err(e);
        }
        let mut j: usize = ep;
        while j < n
            invariant
                ep <= j <= n,
                edigits == s@.skip(ep as int),
                n - ep == edigits.len(),
                forall|k: int| 0 <= k < j - ep ==> is_digit(#[trigger] edigits[k]),
            decreases n - j,
        {
            let c = cs[j];
            assert(edigits[j - ep] == c);
            if !(c as u32 >= '0' as u32 && c as u32 <= '9' as u32) {
                assert(!is_digit(edigits[j - ep]));
                assert(!spec_exp_ok(u));
                let e = err_not_a_number();
                return Err(e);
            }
            j = j + 1;
        }
        evec = collect_region(&cs, ep, n);
        proof {
            assert(evec@ =~= edigits);
        }
    } else {
        proof {
            assert(!has_exp(u));
        }
    }
    proof {
        assert(spec_unsigned_number(u));
    }
    if negative && nonzero {
        let e = chars_to_string_of("Must be zero or positive number.");
        return Err(e);
    }
    // Collect the mantissa digits, the decimal point dropped.
    let int_end: usize = if dots == 1 {
        dot_at
    } else {
        exp_pos
    };
    proof {
        lemma_first_dot(m);
        if dots == 1 {
            assert(first_dot(m) == dot_at - start);
        } else {
            assert(first_dot(m) == m.len());
        }
    }
    let ghost tds: Seq<char> = all_digits(u);
    let mut tvec: Vec<char> = collect_region(&cs, start, int_end);
    proof {
        assert(tvec@ =~= int_digits(m));
    }
    let frac_len: usize = if dots == 1 {
        exp_pos - dot_at - 1
    } else {
        0
    };
    if dots == 1 {
        let mut fvec = collect_region(&cs, dot_at + 1, exp_pos);
        proof {
            assert(fvec@ =~= frac_digits(m));
        }
        tvec.append(&mut fvec);
    } else {
        proof {
            assert(frac_digits(m) =~= Seq::<char>::empty());
            assert(tvec@ =~= int_digits(m) + frac_digits(m));
        }
    }
    proof {
        assert(tvec@ =~= tds);
        assert(forall|q: int| 0 <= q < tds.len() ==> is_digit(#[trigger] tds[q]));
    }
    proof {
        if nonzero {
            let q = choose|q: int|
                0 <= q < m.len() && is_digit(#[trigger] m[q]) && digit_val(m[q]) != 0;
            lemma_mantissa_digit_in_all(u, q);
            let p = choose|p: int| 0 <= p < tds.len() && digit_val(#[trigger] tds[p]) >= 1;
            lemma_digits_nonzero(tds, p);
        } else {
            lemma_all_digits_zero(u);
        }
    }
    let ghost edigits_view: Seq<char> = evec@;
    let v = timeout_value(tvec, frac_len, evec, exp_neg, nonzero);
    proof {
        if exp_pos < n {
            assert(exp_value(u) == if exp_neg {
                -digits_value(edigits_view)
            } else {
                digits_value(edigits_view)
            });
        } else {
            assert(!has_exp(u));
            assert(edigits_view =~= Seq::<char>::empty());
            assert(digits_value(edigits_view) == 0);
        }
        assert(spec_shift(u) == spec_shift_from(digits_value(edigits_view), exp_neg,
            frac_len as int));
        assert(v == spec_timeout_millis(s@));
    }
    Ok(v)
}

/// Compute the milliseconds a gathered digit string yields under the
/// written exponent and fraction length, rounding down and saturating
/// at the millisecond range.
#[verifier::loop_isolation(false)]
#[verifier::rlimit(60)]
fn timeout_value(
    tvec: Vec<char>,
    frac_len: usize,
    evec: Vec<char>,
    exp_neg: bool,
    has_nonzero: bool,
) -> (r: u64)
    requires
        forall|i: int| 0 <= i < tvec@.len() ==> is_digit(#[trigger] tvec@[i]),
        forall|i: int| 0 <= i < evec@.len() ==> is_digit(#[trigger] evec@[i]),
        has_nonzero ==> digits_value(tvec@) >= 1,
        !has_nonzero ==> digits_value(tvec@) == 0,
    ensures
        r == spec_millis_from(
            tvec@,
            spec_shift_from(digits_value(evec@), exp_neg, frac_len as int),
        ),
{
    let ghost tds: Seq<char> = tvec@;
    let ghost shift: int = spec_shift_from(digits_value(evec@), exp_neg, frac_len as int);
    // Strip the exponent's leading zeros to measure its magnitude.
    let elen: usize = evec.len();
    let tlen: usize = tvec.len();
    let mut z: usize = 0;
    proof {
        assert(evec@.skip(0) =~= evec@);
    }
    while z < elen && evec[z] as u32 == '0' as u32
        invariant
            z <= elen,
            digits_value(evec@) == digits_value(evec@.skip(z as int)),
        decreases elen - z,
    {
        proof {
            lemma_drop_leading_zero(evec@.skip(z as int));
            assert(evec@.skip(z as int).drop_first() =~= evec@.skip(z as int + 1));
        }
        z = z + 1;
    }
    let sig_len: usize = elen - z;
    let mut sig: Vec<char> = Vec::new();
    let mut w: usize = z;
    while w < elen
        invariant
            z <= w <= elen,
            sig@ == evec@.skip(z as int).take(w - z),
        decreases elen - w,
    {
        proof {
            assert(evec@.skip(z as int)[w - z] == evec@[w as int]);
        }
        sig.push(evec[w]);
        assert(sig@ =~= evec@.skip(z as int).take(w - z + 1));
        w = w + 1;
    }
    proof {
        assert(sig@ =~= evec@.skip(z as int));
        assert(tds.len() <= usize::MAX);
        assert(frac_len <= usize::MAX);
        lemma_pow10_increases(20, 38);
        assert(pow10(20) == 100000000000000000000) by {
            reveal_with_fuel(pow10, 21);
        }
    }
    if sig_len > 38 {
        // The exponent magnitude dwarfs every possible digit count.
        proof {
            assert(digit_val(sig@[0]) >= 1);
            lemma_digits_lower(sig@);
            lemma_pow10_increases(38, (sig_len - 1) as nat);
            assert(pow10(38) == 100000000000000000000000000000000000000) by {
                reveal_with_fuel(pow10, 39);
            }
            assert(digits_value(evec@) >= pow10(38));
        }
        if exp_neg {
            // The whole digit string falls below the millisecond.
            proof {
                assert(tds.len() + shift <= 0);
                assert(spec_scaled(tds, shift) =~= Seq::<char>::empty());
            }
            return 0u64;
        }
        proof {
            assert(shift > 20);
        }
        if has_nonzero {
            proof {
                lemma_scaled_huge(tds, shift);
            }
            return u64::MAX;
        }
        proof {
            lemma_append_zeros(tds, shift);
            lemma_pow10_increases(shift as nat, shift as nat);
        }
        return 0u64;
    }
    let mag: u128 = digits_value_u128(&sig);
    proof {
        assert(mag == digits_value(evec@));
        lemma_digits_value_bounds(sig@);
        lemma_pow10_increases(sig@.len() as nat, 38);
        assert(pow10(38) == 100000000000000000000000000000000000000) by {
            reveal_with_fuel(pow10, 39);
        }
    }
    let shift_i: i128 = if exp_neg {
        3i128 - (mag as i128) - (frac_len as i128)
    } else {
        (mag as i128) + 3 - (frac_len as i128)
    };
    proof {
        assert(shift_i == shift);
    }
    if shift_i >= 0 {
        if shift_i > 20 {
            if has_nonzero {
                proof {
                    lemma_scaled_huge(tds, shift);
                }
                return u64::MAX;
            }
            proof {
                lemma_append_zeros(tds, shift);
                lemma_pow10_increases(shift as nat, shift as nat);
            }
            return 0u64;
        }
        let zn: usize = shift_i as usize;
        let mut scaled = tvec;
        let mut a: usize = 0;
        while a < zn
            invariant
                a <= zn,
                scaled@ == tds + zero_chars(a as int),
            decreases zn - a,
        {
            scaled.push('0');
            assert(scaled@ =~= tds + zero_chars(a as int + 1));
            a = a + 1;
        }
        proof {
            assert(scaled@ == spec_scaled(tds, shift));
            assert(forall|q: int| 0 <= q < scaled@.len() ==> is_digit(#[trigger] scaled@[q]));
        }
        let v = digits_value_sat(&scaled);
        return v;
    }
    let drop_count: i128 = -shift_i;
    if drop_count >= tlen as i128 {
        proof {
            assert(tds.len() + shift <= 0);
            assert(spec_scaled(tds, shift) =~= Seq::<char>::empty());
        }
        return 0u64;
    }
    let keep: usize = tlen - (drop_count as usize);
    let mut scaled = tvec;
    scaled.truncate(keep);
    proof {
        assert(scaled@ =~= spec_scaled(tds, shift));
        assert(forall|q: int| 0 <= q < scaled@.len() ==> is_digit(#[trigger] scaled@[q]));
    }
    let v = digits_value_sat(&scaled);
    v
}

/// A mantissa digit position lands among the gathered digits.
proof fn lemma_mantissa_digit_in_all(u: Seq<char>, q: int)
    requires
        spec_mantissa_ok(mantissa(u)),
        0 <= q < mantissa(u).len(),
        is_digit(mantissa(u)[q]),
        digit_val(mantissa(u)[q]) != 0,
    ensures
        exists|p: int| 0 <= p < all_digits(u).len() && digit_val(#[trigger] all_digits(u)[p]) >= 1,
{
    let m = mantissa(u);
    lemma_first_dot(m);
    let fd = first_dot(m);
    if q < fd {
        assert(all_digits(u)[q] == int_digits(m)[q]);
        assert(int_digits(m)[q] == m[q]);
        assert(digit_val(all_digits(u)[q]) >= 1);
    } else {
        assert(m[fd] == '.' || fd == m.len());
        assert(q != fd);
        assert(frac_digits(m)[q - fd - 1] == m[q]);
        assert(all_digits(u)[fd + (q - fd - 1)] == frac_digits(m)[q - fd - 1]);
        assert(digit_val(all_digits(u)[q - 1]) >= 1);
    }
}

/// With no nonzero mantissa digit the gathered digits are all zero.
proof fn lemma_all_digits_zero(u: Seq<char>)
    requires
        forall|i: int|
            0 <= i < mantissa(u).len() && is_digit(#[trigger] mantissa(u)[i]) ==> digit_val(
                mantissa(u)[i],
            ) == 0,
        spec_mantissa_ok(mantissa(u)),
    ensures
        digits_value(all_digits(u)) == 0,
{
    let m = mantissa(u);
    lemma_first_dot(m);
    assert forall|p: int| 0 <= p < all_digits(u).len() implies digit_val(
        #[trigger] all_digits(u)[p],
    ) == 0 by {
        if p < int_digits(m).len() {
            assert(all_digits(u)[p] == m[p]);
            assert(is_digit(m[p]));
        } else {
            let fd = first_dot(m);
            assert(all_digits(u)[p] == frac_digits(m)[p - fd]);
            assert(frac_digits(m)[p - fd] == m[p + 1]);
            assert(is_digit(m[p + 1]));
        }
    }
    lemma_zero_digits_value(all_digits(u));
}

/// A nonzero digit string shifted past the millisecond range exceeds
/// it.
proof fn lemma_scaled_huge(ds: Seq<char>, shift: int)
    requires
        forall|i: int| 0 <= i < ds.len() ==> is_digit(#[trigger] ds[i]),
        digits_value(ds) >= 1,
        shift > 20,
    ensures
        digits_value(spec_scaled(ds, shift)) > u64::MAX,
{
    lemma_append_zeros(ds, shift);
    lemma_pow10_increases(21, shift as nat);
    assert(pow10(21) == 1000000000000000000000) by {
        reveal_with_fuel(pow10, 22);
    }
    let a = digits_value(ds);
    let p = pow10(shift as nat);
    assert(a >= 1 && p >= 1 ==> a * p >= p) by (nonlinear_arith);
}

fn err_not_a_number() -> (e: String)
    ensures
        e@ == "Not a number."@,
{
    chars_to_string_of("Not a number.")
}

fn chars_to_string_of(s: &str) -> (r: String)
    ensures
        r@ == s@,
{
    let v = str_chars(s);
    crate::chartext::chars_to_string(&v)
}

} // verus!
