//! Fixed-point decimal numbers.
//!
//! A price or threshold is a `u64` counting units of `1/SCALE` of the quote
//! currency. Parsing a decimal numeral such as `"67000.5"` is exact for up to
//! eight fractional digits; further fractional digits are truncated (rounded
//! toward zero).

use vstd::prelude::*;
use vstd::string::StrSliceExecFns;
use vstd::string::StringExecFns;

verus! {

/// Number of fixed-point units in one whole unit of the quote currency.
pub const SCALE: u64 = 100_000_000;

/// `10^k`.
pub open spec fn pow10(k: nat) -> int
    decreases k,
{
    if k == 0 {
        1
    } else {
        10 * pow10((k - 1) as nat)
    }
}

/// `c` is an ASCII decimal digit.
pub open spec fn is_digit(c: char) -> bool {
    '0' as int <= c as int && c as int <= '9' as int
}

/// Numeric value of a digit character.
pub open spec fn digit_val(c: char) -> int {
    c as int - '0' as int
}

/// Every character of `s` is a decimal digit.
pub open spec fn all_digits(s: Seq<char>) -> bool {
    forall|i: int| 0 <= i < s.len() ==> is_digit(#[trigger] s[i])
}

/// Value of a digit string read in base 10.
pub open spec fn digits_val(s: Seq<char>) -> int
    decreases s.len(),
{
    if s.len() == 0 {
        0
    } else {
        digits_val(s.drop_last()) * 10 + digit_val(s.last())
    }
}

/// Index of the first `'.'` in `s` at or after `i`, or `s.len()` if there is none.
pub open spec fn find_dot(s: Seq<char>, i: int) -> int
    decreases s.len() - i when 0 <= i <= s.len()
{
    if i >= s.len() {
        s.len() as int
    } else if s[i] == '.' {
        i
    } else {
        find_dot(s, i + 1)
    }
}

/// The digits after the dot, or empty if there is no dot.
pub open spec fn frac_part(s: Seq<char>) -> Seq<char> {
    let d = find_dot(s, 0);
    if d == s.len() {
        Seq::empty()
    } else {
        s.subrange(d + 1, s.len() as int)
    }
}

/// `s` is a well-formed decimal numeral: one or more digits, optionally
/// followed by a dot and one or more digits.
pub open spec fn wf_decimal(s: Seq<char>) -> bool {
    let d = find_dot(s, 0);
    &&& 0 < d
    &&& all_digits(s.take(d))
    &&& (d == s.len() || (d + 1 < s.len() && all_digits(s.subrange(d + 1, s.len() as int))))
}

/// Contribution of the fraction digits `t`, in fixed-point units: the first
/// eight digits weighted by descending powers of ten, the rest truncated.
pub open spec fn frac_scaled(t: Seq<char>) -> int {
    if t.len() <= 8 {
        digits_val(t) * pow10((8 - t.len()) as nat)
    } else {
        digits_val(t.take(8))
    }
}

/// Value of a well-formed decimal numeral, in fixed-point units.
pub open spec fn dec_units(s: Seq<char>) -> int {
    let d = find_dot(s, 0);
    digits_val(s.take(d)) * (SCALE as int) + frac_scaled(frac_part(s))
}

/// Value of a decimal numeral in fixed-point units, or `None` if `s` is not a
/// well-formed decimal numeral.
pub open spec fn dec_value(s: Seq<char>) -> Option<int> {
    if wf_decimal(s) {
        Some(dec_units(s))
    } else {
        None
    }
}

proof fn lemma_pow10_pos(k: nat)
    ensures
        pow10(k) >= 1,
    decreases k,
{
    if k > 0 {
        lemma_pow10_pos((k - 1) as nat);
    }
}

proof fn lemma_pow10_add(a: nat, b: nat)
    ensures
        pow10(a) * pow10(b) == pow10(a + b),
    decreases a,
{
    if a == 0 {
        assert(pow10(0) == 1);
    } else {
        lemma_pow10_add((a - 1) as nat, b);
        assert(pow10(a) * pow10(b) == 10 * (pow10((a - 1) as nat) * pow10(b)))
            by (nonlinear_arith)
            requires
                pow10(a) == 10 * pow10((a - 1) as nat),
        ;
    }
}

/// A scan that saw no dot before `d`, and a dot or the end at `d`, found the
/// first dot.
proof fn lemma_find_dot_is(s: Seq<char>, i: int, d: int)
    requires
        0 <= i <= d <= s.len(),
        forall|j: int| i <= j < d ==> s[j] != '.',
        d < s.len() ==> s[d] == '.',
    ensures
        find_dot(s, i) == d,
    decreases d - i,
{
    if i < d {
        lemma_find_dot_is(s, i + 1, d);
    }
}

proof fn lemma_digits_val_bounds(s: Seq<char>)
    requires
        all_digits(s),
    ensures
        0 <= digits_val(s) < pow10(s.len()),
    decreases s.len(),
{
    if s.len() > 0 {
        assert(all_digits(s.drop_last()));
        lemma_digits_val_bounds(s.drop_last());
        assert(is_digit(s.last()));
        assert(digits_val(s.drop_last()) * 10 <= (pow10((s.len() - 1) as nat) - 1) * 10)
            by (nonlinear_arith)
            requires
                digits_val(s.drop_last()) <= pow10((s.len() - 1) as nat) - 1,
        ;
        assert(digits_val(s.drop_last()) * 10 >= 0) by (nonlinear_arith)
            requires
                digits_val(s.drop_last()) >= 0,
        ;
    }
}

/// Reading more digits of a digit string can only keep or grow its value.
proof fn lemma_digits_val_prefix_le(s: Seq<char>, j: int, k: int)
    requires
        all_digits(s),
        0 <= j <= k <= s.len(),
    ensures
        digits_val(s.take(j)) <= digits_val(s.take(k)),
    decreases k - j,
{
    if j < k {
        lemma_digits_val_prefix_le(s, j, k - 1);
        assert(s.take(k).drop_last() =~= s.take(k - 1));
        assert(all_digits(s.take(k - 1)));
        lemma_digits_val_bounds(s.take(k - 1));
        assert(is_digit(s[k - 1]));
        assert(digits_val(s.take(k)) == digits_val(s.take(k - 1)) * 10 + digit_val(s[k - 1]));
        assert(digits_val(s.take(k - 1)) * 10 >= digits_val(s.take(k - 1))) by (nonlinear_arith)
            requires
                digits_val(s.take(k - 1)) >= 0,
        ;
    }
}

/// `10^k` for `k <= 8`.
fn pow10_u64(k: usize) -> (r: u64)
    requires
        k <= 8,
    ensures
        r == pow10(k as nat),
{
    proof {
        reveal_with_fuel(pow10, 9);
    }
    match k {
        0 => 1,
        1 => 10,
        2 => 100,
        3 => 1000,
        4 => 10000,
        5 => 100000,
        6 => 1000000,
        7 => 10000000,
        _ => 100000000,
    }
}

/// Parse a decimal numeral into fixed-point units.
///
/// Accepts one or more digits, optionally followed by a dot and one or more
/// digits; anything else (signs, exponents, spaces, empty input) is rejected.
/// Fractional digits beyond the eighth are truncated toward zero. Returns
/// `None` also when the value does not fit in a `u64`.
pub fn parse_decimal(s: &str) -> (r: Option<u64>)
    ensures
        match r {
            Some(v) => dec_value(s@) == Some(v as int),
            None => wf_decimal(s@) ==> dec_units(s@) > u64::MAX,
        },
{
    let n = s.unicode_len();
    if n == 0 {
        return None;
    }
    // find the first dot
    let mut d: usize = 0;
    while d < n && s.get_char(d) != '.'
        invariant
            n == s@.len(),
            d <= n,
            forall|j: int| 0 <= j < d ==> s@[j] != '.',
        decreases n - d,
    {
        d += 1;
    }
    proof {
        lemma_find_dot_is(s@, 0, d as int);
    }
    if d == 0 {
        return None;
    }

    // integer part: digits at [0, d)
    let mut acc: u64 = 0;
    let mut i: usize = 0;
    while i < d
        invariant
            n == s@.len(),
            0 < d <= n,
            find_dot(s@, 0) == d as int,
            i <= d,
            all_digits(s@.take(i as int)),
            acc == digits_val(s@.take(i as int)),
        decreases d - i,
    {
        let c = s.get_char(i);
        let u = c as u32;
        if u < 48 || 57 < u {
            proof {
                assert(!is_digit(s@[i as int]));
                assert(s@.take(d as int)[i as int] == s@[i as int]);
                assert(!wf_decimal(s@));
            }
            return None;
        }
        let dv: u64 = (u - 48) as u64;
        if acc > (u64::MAX - dv) / 10 {
            proof {
                lemma_too_many_int_digits(s@, i as int, d as int, acc as int, dv as int);
            }
            return None;
        }
        proof {
            assert(s@.take(i + 1).drop_last() =~= s@.take(i as int));
            assert(s@.take(i + 1).last() == s@[i as int]);
            assert(digit_val(s@[i as int]) == dv);
        }
        acc = acc * 10 + dv;
        i += 1;
    }

    // fraction part: digits at [d + 1, n), if a dot was found
    let mut frac: u64 = 0;
    let mut cnt: usize = 0;
    if d < n {
        if d + 1 == n {
            // trailing dot with no fraction digits
            return None;
        }
        let mut j: usize = d + 1;
        while j < n
            invariant
                n == s@.len(),
                0 < d < n,
                find_dot(s@, 0) == d as int,
                d + 1 <= j <= n,
                all_digits(s@.subrange(d + 1, j as int)),
                cnt == if j - (d + 1) <= 8 {
                    j - (d + 1)
                } else {
                    8
                },
                frac == digits_val(s@.subrange(d + 1, d + 1 + cnt)),
                frac < pow10(cnt as nat),
            decreases n - j,
        {
            let c = s.get_char(j);
            let u = c as u32;
            if u < 48 || 57 < u {
                proof {
                    assert(!is_digit(s@[j as int]));
                    assert(s@.subrange(d + 1, n as int)[j - (d + 1)] == s@[j as int]);
                    assert(!wf_decimal(s@));
                }
                return None;
            }
            proof {
                assert(s@.subrange(d + 1, j + 1).drop_last() =~= s@.subrange(d + 1, j as int));
                assert(s@.subrange(d + 1, j + 1).last() == s@[j as int]);
            }
            if cnt < 8 {
                proof {
                    assert(s@.subrange(d + 1, d + 1 + (cnt + 1)).drop_last() =~= s@.subrange(
                        d + 1,
                        d + 1 + cnt,
                    ));
                    assert(s@.subrange(d + 1, d + 1 + (cnt + 1)).last() == s@[j as int]);
                    assert(digit_val(s@[j as int]) == u - 48);
                    lemma_pow10_pos(cnt as nat);
                    assert(frac * 10 + (u - 48) < pow10(cnt as nat) * 10) by (nonlinear_arith)
                        requires
                            frac < pow10(cnt as nat),
                            u - 48 < 10,
                    ;
                    reveal_with_fuel(pow10, 9);
                    assert(pow10((cnt + 1) as nat) == 10 * pow10(cnt as nat));
                }
                frac = frac * 10 + ((u - 48) as u64);
                cnt += 1;
            }
            j += 1;
        }
        let mult = pow10_u64(8 - cnt);
        proof {
            lemma_pow10_add(cnt as nat, (8 - cnt) as nat);
            lemma_pow10_pos((8 - cnt) as nat);
            reveal_with_fuel(pow10, 9);
            assert(frac * mult <= (pow10(cnt as nat) - 1) * mult) by (nonlinear_arith)
                requires
                    frac < pow10(cnt as nat),
                    mult >= 1,
            ;
            assert((pow10(cnt as nat) - 1) * mult == pow10(cnt as nat) * mult - mult)
                by (nonlinear_arith);
        }
        frac = frac * mult;
        proof {
            lemma_frac_scaled_form(s@, d as int, cnt as int, frac as int);
        }
    }
    proof {
        if d == n {
            assert(frac_part(s@) =~= Seq::<char>::empty());
            assert(digits_val(Seq::<char>::empty()) == 0);
            assert(frac_scaled(frac_part(s@)) == 0 * pow10(8));
        }
        assert(frac_scaled(frac_part(s@)) == frac);
        assert(frac < SCALE);
        assert(wf_decimal(s@));
    }

    // total = acc * SCALE + frac
    if acc > (u64::MAX - frac) / SCALE {
        proof {
            lemma_int_part_too_big(acc as int, frac as int);
        }
        return None;
    }
    proof {
        lemma_total_fits(acc as int, frac as int);
    }
    let total = acc * SCALE + frac;
    Some(total)
}

/// If the integer digits read so far already exceed `u64::MAX`, the whole
/// numeral's value does too.
proof fn lemma_too_many_int_digits(s: Seq<char>, i: int, d: int, acc: int, dv: int)
    requires
        0 <= i < d <= s.len(),
        find_dot(s, 0) == d,
        all_digits(s.take(i)),
        acc == digits_val(s.take(i)),
        0 <= acc <= u64::MAX,
        0 <= dv <= 9,
        is_digit(s[i]),
        digit_val(s[i]) == dv,
        acc > ((u64::MAX - dv) as int) / 10,
    ensures
        wf_decimal(s) ==> dec_units(s) > u64::MAX,
{
    if wf_decimal(s) {
        let m = u64::MAX as int;
        // acc * 10 + dv > u64::MAX
        assert((m - dv) == 10 * ((m - dv) / 10) + (m - dv) % 10) by {
            vstd::arithmetic::div_mod::lemma_fundamental_div_mod(m - dv, 10);
        }
        assert(acc * 10 >= ((m - dv) / 10 + 1) * 10) by (nonlinear_arith)
            requires
                acc >= (m - dv) / 10 + 1,
        ;
        assert(acc * 10 + dv > m);
        // digits_val(s.take(i + 1)) == acc * 10 + dv
        assert(s.take(i + 1).drop_last() =~= s.take(i));
        assert(s.take(i + 1).last() == s[i]);
        assert(digits_val(s.take(i + 1)) == acc * 10 + dv);
        // the full integer part is at least that
        lemma_digits_val_prefix_le(s.take(d), i + 1, d);
        assert(s.take(d).take(i + 1) =~= s.take(i + 1));
        assert(s.take(d).take(d) =~= s.take(d));
        assert(digits_val(s.take(d)) >= acc * 10 + dv);
        // and the whole value is at least the integer part
        lemma_digits_val_bounds(s.take(d));
        assert(digits_val(s.take(d)) * (SCALE as int) >= digits_val(s.take(d)))
            by (nonlinear_arith)
            requires
                digits_val(s.take(d)) >= 0,
        ;
        lemma_frac_scaled_nonneg(s);
    }
}

/// The fraction contribution of a well-formed numeral is within `[0, SCALE)`.
proof fn lemma_frac_scaled_nonneg(s: Seq<char>)
    requires
        wf_decimal(s),
    ensures
        0 <= frac_scaled(frac_part(s)) < SCALE,
{
    let t = frac_part(s);
    assert(all_digits(t));
    if t.len() <= 8 {
        lemma_digits_val_bounds(t);
        lemma_pow10_pos((8 - t.len()) as nat);
        lemma_pow10_add(t.len(), (8 - t.len()) as nat);
        assert(digits_val(t) * pow10((8 - t.len()) as nat) >= 0) by (nonlinear_arith)
            requires
                digits_val(t) >= 0,
                pow10((8 - t.len()) as nat) >= 1,
        ;
        assert(digits_val(t) * pow10((8 - t.len()) as nat) <= (pow10(t.len()) - 1) * pow10(
            (8 - t.len()) as nat,
        )) by (nonlinear_arith)
            requires
                digits_val(t) <= pow10(t.len()) - 1,
                pow10((8 - t.len()) as nat) >= 1,
        ;
        assert((pow10(t.len()) - 1) * pow10((8 - t.len()) as nat) == pow10(t.len()) * pow10(
            (8 - t.len()) as nat,
        ) - pow10((8 - t.len()) as nat)) by (nonlinear_arith);
        reveal_with_fuel(pow10, 9);
    } else {
        assert(all_digits(t.take(8)));
        lemma_digits_val_bounds(t.take(8));
        reveal_with_fuel(pow10, 9);
    }
}

/// After the fraction loop, `frac` equals the spec-level fraction contribution.
proof fn lemma_frac_scaled_form(s: Seq<char>, d: int, cnt: int, frac: int)
    requires
        0 < d < s.len(),
        find_dot(s, 0) == d,
        all_digits(s.subrange(d + 1, s.len() as int)),
        cnt == if s.len() - (d + 1) <= 8 {
            s.len() - (d + 1)
        } else {
            8
        },
        frac == digits_val(s.subrange(d + 1, d + 1 + cnt)) * pow10((8 - cnt) as nat),
    ensures
        frac == frac_scaled(frac_part(s)),
{
    let t = frac_part(s);
    assert(t =~= s.subrange(d + 1, s.len() as int));
    if t.len() <= 8 {
        assert(s.subrange(d + 1, d + 1 + cnt) =~= t);
    } else {
        assert(s.subrange(d + 1, d + 1 + cnt) =~= t.take(8));
        assert(pow10(0) == 1);
    }
}

/// If the integer part fails the final magnitude test, the value exceeds `u64::MAX`.
proof fn lemma_int_part_too_big(acc: int, frac: int)
    requires
        0 <= acc <= u64::MAX,
        0 <= frac < SCALE,
        acc > ((u64::MAX - frac) as int) / (SCALE as int),
    ensures
        acc * (SCALE as int) + frac > u64::MAX,
{
    let m = u64::MAX as int;
    let sc = SCALE as int;
    assert((m - frac) == sc * ((m - frac) / sc) + (m - frac) % sc) by {
        vstd::arithmetic::div_mod::lemma_fundamental_div_mod(m - frac, sc);
    }
    assert(acc * sc >= ((m - frac) / sc + 1) * sc) by (nonlinear_arith)
        requires
            acc >= (m - frac) / sc + 1,
            sc > 0,
    ;
}

/// The digit character for `d`, expected in `0..10`.
pub open spec fn digit_char(d: int) -> char {
    if d == 0 {
        '0'
    } else if d == 1 {
        '1'
    } else if d == 2 {
        '2'
    } else if d == 3 {
        '3'
    } else if d == 4 {
        '4'
    } else if d == 5 {
        '5'
    } else if d == 6 {
        '6'
    } else if d == 7 {
        '7'
    } else if d == 8 {
        '8'
    } else {
        '9'
    }
}

/// The decimal numeral for a non-negative `n`, most significant digit first.
pub open spec fn dec_str(n: int) -> Seq<char>
    decreases n when n >= 0
{
    if n < 10 {
        seq![digit_char(n)]
    } else {
        dec_str(n / 10).push(digit_char(n % 10))
    }
}

fn digit_str(d: u64) -> (r: &'static str)
    requires
        d < 10,
    ensures
        r@ == seq![digit_char(d as int)],
{
    proof {
        reveal_strlit("0");
        reveal_strlit("1");
        reveal_strlit("2");
        reveal_strlit("3");
        reveal_strlit("4");
        reveal_strlit("5");
        reveal_strlit("6");
        reveal_strlit("7");
        reveal_strlit("8");
        reveal_strlit("9");
    }
    let r = match d {
        0 => "0",
        1 => "1",
        2 => "2",
        3 => "3",
        4 => "4",
        5 => "5",
        6 => "6",
        7 => "7",
        8 => "8",
        _ => "9",
    };
    proof {
        assert(r@ =~= seq![digit_char(d as int)]);
    }
    r
}

/// Render `n` as its decimal numeral.
pub fn to_decimal_string(n: u128) -> (r: String)
    ensures
        r@ == dec_str(n as int),
    decreases n,
{
    if n < 10 {
        String::from_str(digit_str(n as u64))
    } else {
        let mut s = to_decimal_string(n / 10);
        s.append(digit_str((n % 10) as u64));
        proof {
            assert(dec_str(n as int / 10).push(digit_char(n as int % 10)) =~= dec_str(
                n as int / 10,
            ) + seq![digit_char(n as int % 10)]);
        }
        s
    }
}

/// The two-decimal rendering of a quantity given in hundredths: the whole
/// part, a dot, and exactly two digits.
pub open spec fn hundredths_str(h: int) -> Seq<char> {
    dec_str(h / 100) + seq!['.'] + seq![digit_char(h / 10 % 10), digit_char(h % 10)]
}

/// Render a quantity of hundredths with exactly two decimal places, as in
/// `"94.00"` for 9400 hundredths.
pub fn format_hundredths(h: u128) -> (r: String)
    ensures
        r@ == hundredths_str(h as int),
{
    proof {
        reveal_strlit(".");
    }
    let mut s = to_decimal_string(h / 100);
    s.append(".");
    s.append(digit_str((h / 10 % 10) as u64));
    s.append(digit_str((h % 10) as u64));
    proof {
        assert(s@ =~= hundredths_str(h as int));
    }
    s
}

/// Render a fixed-point amount with two decimal places, as the status lines
/// print a price: digits below one hundredth are truncated.
pub fn format_fixed2(units: u64) -> (r: String)
    ensures
        r@ == hundredths_str(units as int / 1_000_000),
{
    format_hundredths((units / 1_000_000) as u128)
}

/// If the integer part passes the final magnitude test, the value fits in a `u64`.
proof fn lemma_total_fits(acc: int, frac: int)
    requires
        0 <= acc <= u64::MAX,
        0 <= frac < SCALE,
        acc <= ((u64::MAX - frac) as int) / (SCALE as int),
    ensures
        acc * (SCALE as int) + frac <= u64::MAX,
{
    let m = u64::MAX as int;
    let sc = SCALE as int;
    assert((m - frac) == sc * ((m - frac) / sc) + (m - frac) % sc) by {
        vstd::arithmetic::div_mod::lemma_fundamental_div_mod(m - frac, sc);
    }
    assert(acc * sc <= ((m - frac) / sc) * sc) by (nonlinear_arith)
        requires
            acc <= (m - frac) / sc,
            sc > 0,
    ;
}

} // verus!
