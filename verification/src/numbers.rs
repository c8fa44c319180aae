//! Decimal text: rendering millisecond offsets as the `seconds.millis`
//! notation the transcoder takes on its command line, and parsing the
//! decimal seconds its tools print back. Fractions beyond milliseconds are
//! truncated; both directions are specified exactly over `Seq<char>`.
use vstd::prelude::*;

use crate::clip::TIME_LIMIT_MS;
use crate::text::push_char;

verus! {

/// The digit character for `0 <= d <= 9`.
pub open spec fn digit_char(d: int) -> char {
    ((48 + d) as u8) as char
}

/// Is `c` a decimal digit?
pub open spec fn is_digit(c: char) -> bool {
    '0' <= c <= '9'
}

/// The value of a digit character.
pub open spec fn digit_val(c: char) -> int {
    c as u32 - 48
}

/// Every character of `s` is a decimal digit.
pub open spec fn all_digits(s: Seq<char>) -> bool {
    forall|i: int| 0 <= i < s.len() ==> is_digit(#[trigger] s[i])
}

/// The decimal digits of `n >= 0`, most significant first, no leading zeros
/// (a single `'0'` for zero).
pub open spec fn dec_str(n: int) -> Seq<char>
    decreases n,
{
    if n < 10 {
        seq![digit_char(n)]
    } else {
        dec_str(n / 10).push(digit_char(n % 10))
    }
}

/// `n` rendered as exactly three digits (for `0 <= n < 1000`).
pub open spec fn pad3_str(n: int) -> Seq<char> {
    seq![digit_char(n / 100 % 10), digit_char(n / 10 % 10), digit_char(n % 10)]
}

/// A millisecond count rendered as decimal seconds: whole seconds, a dot,
/// and exactly three fractional digits.
pub open spec fn seconds_str(ms: int) -> Seq<char> {
    dec_str(ms / 1000) + seq!['.'] + pad3_str(ms % 1000)
}

/// The value of a digit string, most significant first.
pub open spec fn digits_val(s: Seq<char>) -> int
    decreases s.len(),
{
    if s.len() == 0 {
        0
    } else {
        digits_val(s.drop_last()) * 10 + digit_val(s.last())
    }
}

/// The characters before the first `'.'` (all of `s` when there is none).
pub open spec fn int_part(s: Seq<char>) -> Seq<char>
    decreases s.len(),
{
    if s.len() == 0 || s[0] == '.' {
        Seq::empty()
    } else {
        seq![s[0]] + int_part(s.drop_first())
    }
}

/// The characters after the first `'.'` (empty when there is none).
pub open spec fn frac_part(s: Seq<char>) -> Seq<char>
    decreases s.len(),
{
    if s.len() == 0 {
        Seq::empty()
    } else if s[0] == '.' {
        s.drop_first()
    } else {
        frac_part(s.drop_first())
    }
}

/// `s` is a non-negative decimal seconds literal: one or more digits,
/// optionally followed by a dot and any run of digits.
pub open spec fn is_decimal_seconds(s: Seq<char>) -> bool {
    &&& int_part(s).len() >= 1
    &&& all_digits(int_part(s))
    &&& all_digits(frac_part(s))
}

/// The fractional digit at position `i`, 0 past the end.
pub open spec fn frac_digit(f: Seq<char>, i: int) -> int {
    if i < f.len() {
        digit_val(f[i])
    } else {
        0
    }
}

/// Milliseconds carried by the fractional part; digits beyond the third are
/// truncated.
pub open spec fn frac_ms(f: Seq<char>) -> int {
    100 * frac_digit(f, 0) + 10 * frac_digit(f, 1) + frac_digit(f, 2)
}

/// The millisecond value of a decimal seconds literal.
pub open spec fn seconds_value_ms(s: Seq<char>) -> int {
    1000 * digits_val(int_part(s)) + frac_ms(frac_part(s))
}

/// Splitting at the first dot: with no dot before `d` and a dot (or the end)
/// at `d`, the integer part is `s.take(d)` and the fractional part is what
/// follows the dot.
proof fn lemma_int_frac_split(s: Seq<char>, d: int)
    requires
        0 <= d <= s.len(),
        forall|j: int| 0 <= j < d ==> #[trigger] s[j] != '.',
        d < s.len() ==> s[d] == '.',
    ensures
        int_part(s) == s.take(d),
        frac_part(s) == if d < s.len() {
            s.skip(d + 1)
        } else {
            Seq::<char>::empty()
        },
    decreases d,
{
    if d == 0 {
        if s.len() == 0 {
            assert(s.take(0) =~= Seq::<char>::empty());
        } else {
            assert(s.take(0) =~= Seq::<char>::empty());
            assert(s.skip(1) =~= s.drop_first());
        }
    } else {
        let s2 = s.drop_first();
        assert forall|j: int| 0 <= j < d - 1 implies #[trigger] s2[j] != '.' by {
            assert(s2[j] == s[j + 1]);
        }
        assert(d - 1 < s2.len() ==> s2[d - 1] == '.');
        lemma_int_frac_split(s2, d - 1);
        assert(seq![s[0]] + s2.take(d - 1) =~= s.take(d));
        if d < s.len() {
            assert(s2.skip(d) =~= s.skip(d + 1));
        }
    }
}

/// A digit string's value only grows as digits are appended, and is never
/// negative.
proof fn lemma_digits_val_prefix(s: Seq<char>, i: int)
    requires
        0 <= i <= s.len(),
        all_digits(s),
    ensures
        digits_val(s) >= digits_val(s.take(i)) >= 0,
    decreases s.len() - i,
{
    if i == s.len() {
        assert(s.take(i) =~= s);
        lemma_digits_val_nonneg(s);
    } else {
        assert(s.take(i + 1).drop_last() =~= s.take(i));
        assert(s.take(i + 1).last() == s[i]);
        lemma_digits_val_prefix(s, i + 1);
        lemma_digits_val_nonneg(s.take(i));
    }
}

/// A digit string's value is non-negative.
proof fn lemma_digits_val_nonneg(s: Seq<char>)
    requires
        all_digits(s),
    ensures
        digits_val(s) >= 0,
    decreases s.len(),
{
    if s.len() > 0 {
        assert(all_digits(s.drop_last()));
        lemma_digits_val_nonneg(s.drop_last());
    }
}

/// The digit character for a small number.
pub fn digit_of(d: u64) -> (c: char)
    requires
        d < 10,
    ensures
        c == digit_char(d as int),
{
    (48 + d as u8) as char
}

/// Appends the decimal digits of `n` to `s`.
pub fn push_decimal(s: &mut String, n: u64)
    ensures
        final(s)@ == old(s)@ + dec_str(n as int),
    decreases n,
{
    if n < 10 {
        push_char(s, digit_of(n));
        proof {
            assert(old(s)@.push(digit_char(n as int)) =~= old(s)@ + dec_str(n as int));
        }
    } else {
        push_decimal(s, n / 10);
        push_char(s, digit_of(n % 10));
        proof {
            assert((old(s)@ + dec_str(n as int / 10)).push(digit_char(n as int % 10)) =~= old(s)@
                + dec_str(n as int));
        }
    }
}

/// Appends `n` as exactly three digits.
pub fn push_pad3(s: &mut String, n: u64)
    requires
        n < 1000,
    ensures
        final(s)@ == old(s)@ + pad3_str(n as int),
{
    push_char(s, digit_of(n / 100 % 10));
    push_char(s, digit_of(n / 10 % 10));
    push_char(s, digit_of(n % 10));
    proof {
        assert(old(s)@.push(digit_char(n as int / 100 % 10)).push(
            digit_char(n as int / 10 % 10),
        ).push(digit_char(n as int % 10)) =~= old(s)@ + pad3_str(n as int));
    }
}

/// `ms` rendered as decimal seconds with three fractional digits, the form
/// the transcoder's command line takes for time offsets.
pub fn format_seconds(ms: u64) -> (r: String)
    ensures
        r@ == seconds_str(ms as int),
{
    let mut r = String::new();
    push_decimal(&mut r, ms / 1000);
    push_char(&mut r, '.');
    push_pad3(&mut r, ms % 1000);
    proof {
        assert(r@ =~= seconds_str(ms as int));
    }
    r
}

/// Parses a decimal seconds literal into whole milliseconds (fractions
/// beyond the third digit truncated). Returns `None` exactly when the text
/// is not such a literal or its value exceeds `TIME_LIMIT_MS`.
#[verifier::loop_isolation(false)]
pub fn parse_seconds_ms(v: &Vec<char>) -> (r: Option<u64>)
    ensures
        match r {
            Some(ms) => is_decimal_seconds(v@) && ms == seconds_value_ms(v@) && ms
                <= TIME_LIMIT_MS,
            None => !is_decimal_seconds(v@) || seconds_value_ms(v@) > TIME_LIMIT_MS,
        },
{
    let n: usize = v.len();
    // find the first dot
    let mut d: usize = 0;
    while d < n && v[d] != '.'
        invariant
            d <= n,
            forall|j: int| 0 <= j < d ==> #[trigger] v@[j] != '.',
        decreases n - d,
    {
        d = d + 1;
    }
    proof {
        lemma_int_frac_split(v@, d as int);
    }
    if d == 0 {
        // empty integer part
        return None;
    }
    // integer part: all digits, accumulated with an overflow guard
    let mut acc: u64 = 0;
    let mut j: usize = 0;
    while j < d
        invariant
            j <= d,
            acc == digits_val(v@.take(j as int)),
            acc <= TIME_LIMIT_MS,
            forall|q: int| 0 <= q < j ==> is_digit(#[trigger] v@[q]),
        decreases d - j,
    {
        let c = v[j];
        if !('0' <= c && c <= '9') {
            proof {
                assert(int_part(v@)[j as int] == c);
            }
            return None;
        }
        proof {
            assert(v@.take(j as int + 1).drop_last() =~= v@.take(j as int));
            assert(v@.take(j as int + 1).last() == v@[j as int]);
        }
        let dv: u64 = (c as u8 - 48) as u64;
        if acc > (TIME_LIMIT_MS - dv) / 10 {
            // the integer part alone already names more milliseconds than
            // the engine accepts
            proof {
                if is_decimal_seconds(v@) {
                    lemma_digits_val_prefix(int_part(v@), j as int + 1);
                    assert(int_part(v@).take(j as int + 1) =~= v@.take(j as int + 1));
                    lemma_frac_ms_nonneg(frac_part(v@));
                }
            }
            return None;
        }
        acc = acc * 10 + dv;
        j = j + 1;
    }
    proof {
        assert(v@.take(d as int) == int_part(v@));
    }
    // fractional part: all digits, first three carried
    let mut f0: u64 = 0;
    let mut f1: u64 = 0;
    let mut f2: u64 = 0;
    if d < n {
        let mut q: usize = d + 1;
        while q < n
            invariant
                d + 1 <= q <= n,
                forall|w: int| d + 1 <= w < q ==> is_digit(#[trigger] v@[w]),
                q > d + 1 ==> f0 == frac_digit(v@.skip(d as int + 1), 0),
                q > d + 2 ==> f1 == frac_digit(v@.skip(d as int + 1), 1),
                q > d + 3 ==> f2 == frac_digit(v@.skip(d as int + 1), 2),
                q <= d + 2 ==> f1 == 0,
                q <= d + 3 ==> f2 == 0,
                q <= d + 1 ==> f0 == 0,
            decreases n - q,
        {
            let c = v[q];
            if !('0' <= c && c <= '9') {
                proof {
                    assert(frac_part(v@)[q - d - 1] == c);
                }
                return None;
            }
            let dv: u64 = (c as u8 - 48) as u64;
            if q == d + 1 {
                f0 = dv;
                proof {
                    assert(v@.skip(d as int + 1)[0] == v@[d as int + 1]);
                }
            } else if q == d + 2 {
                f1 = dv;
                proof {
                    assert(v@.skip(d as int + 1)[1] == v@[d as int + 2]);
                }
            } else if q == d + 3 {
                f2 = dv;
                proof {
                    assert(v@.skip(d as int + 1)[2] == v@[d as int + 3]);
                }
            }
            q = q + 1;
        }
        proof {
            assert forall|w: int| 0 <= w < frac_part(v@).len() implies is_digit(
                #[trigger] frac_part(v@)[w],
            ) by {
                assert(frac_part(v@)[w] == v@[w + d + 1]);
            }
        }
    }
    let frac: u64 = 100 * f0 + 10 * f1 + f2;
    proof {
        assert(is_decimal_seconds(v@));
        assert(frac == frac_ms(frac_part(v@)));
    }
    if acc > (TIME_LIMIT_MS - frac) / 1000 {
        proof {
            assert(1000 * acc + frac > TIME_LIMIT_MS) by (nonlinear_arith)
                requires
                    acc > (TIME_LIMIT_MS - frac) / 1000 && 0 <= frac < 1000
                        && TIME_LIMIT_MS == 0xFFFF_FFFFu64;
        }
        return None;
    }
    proof {
        assert(1000 * acc + frac <= TIME_LIMIT_MS) by (nonlinear_arith)
            requires
                acc <= (TIME_LIMIT_MS - frac) / 1000 && 0 <= frac < 1000
                    && TIME_LIMIT_MS == 0xFFFF_FFFFu64;
    }
    Some(1000 * acc + frac)
}

/// The fractional milliseconds of a digit string are in `[0, 1000)`.
proof fn lemma_frac_ms_nonneg(f: Seq<char>)
    requires
        all_digits(f),
    ensures
        0 <= frac_ms(f) < 1000,
{
}

/// A rendered number is all digits (no dot among them) and reads back as
/// itself.
proof fn lemma_dec_str_value(n: int)
    requires
        n >= 0,
    ensures
        dec_str(n).len() >= 1,
        all_digits(dec_str(n)),
        digits_val(dec_str(n)) == n,
        forall|i: int| 0 <= i < dec_str(n).len() ==> #[trigger] dec_str(n)[i] != '.',
    decreases n,
{
    if n < 10 {
        let s = dec_str(n);
        assert(s == seq![digit_char(n)]);
        assert(is_digit(digit_char(n)));
        assert(digit_val(digit_char(n)) == n);
        assert(s.drop_last() =~= Seq::<char>::empty());
        assert(digits_val(s) == digits_val(Seq::<char>::empty()) * 10 + digit_val(s.last()));
    } else {
        lemma_dec_str_value(n / 10);
        let head = dec_str(n / 10);
        let s = dec_str(n);
        assert(s == head.push(digit_char(n % 10)));
        assert(s.drop_last() =~= head);
        assert(is_digit(digit_char(n % 10)));
        assert(digit_val(digit_char(n % 10)) == n % 10);
        vstd::arithmetic::div_mod::lemma_fundamental_div_mod(n, 10);
        assert forall|i: int| 0 <= i < s.len() implies is_digit(#[trigger] s[i]) && s[i]
            != '.' by {
            if i < head.len() {
                assert(s[i] == head[i]);
            }
        }
    }
}

/// Three padded digits read back as the number they render.
proof fn lemma_pad3_value(n: int)
    requires
        0 <= n < 1000,
    ensures
        pad3_str(n).len() == 3,
        all_digits(pad3_str(n)),
        frac_ms(pad3_str(n)) == n,
{
    let s = pad3_str(n);
    assert(s[0] == digit_char(n / 100 % 10));
    assert(s[1] == digit_char(n / 10 % 10));
    assert(s[2] == digit_char(n % 10));
    assert(n / 100 % 10 == n / 100) by {
        vstd::arithmetic::div_mod::lemma_div_is_ordered(n, 999, 100);
        vstd::arithmetic::div_mod::lemma_small_mod((n / 100) as nat, 10);
    }
    assert(100 * (n / 100) + 10 * (n / 10 % 10) + n % 10 == n) by {
        vstd::arithmetic::div_mod::lemma_fundamental_div_mod(n, 10);
        vstd::arithmetic::div_mod::lemma_fundamental_div_mod(n / 10, 10);
        vstd::arithmetic::div_mod::lemma_fundamental_div_mod(n, 100);
        assert(n / 10 / 10 == n / 100) by {
            vstd::arithmetic::div_mod::lemma_div_denominator(n, 10, 10);
        }
    }
}

/// Round trip: a millisecond count rendered as decimal seconds is a valid
/// decimal seconds literal, and parsing it gives the count back exactly.
pub proof fn lemma_seconds_round_trip(ms: int)
    requires
        0 <= ms,
    ensures
        is_decimal_seconds(seconds_str(ms)),
        seconds_value_ms(seconds_str(ms)) == ms,
{
    let whole = dec_str(ms / 1000);
    let frac = pad3_str(ms % 1000);
    let s = seconds_str(ms);
    vstd::arithmetic::div_mod::lemma_fundamental_div_mod(ms, 1000);
    vstd::arithmetic::div_mod::lemma_mod_bound(ms, 1000);
    lemma_dec_str_value(ms / 1000);
    lemma_pad3_value(ms % 1000);
    let d = whole.len() as int;
    assert forall|j: int| 0 <= j < d implies #[trigger] s[j] != '.' by {
        assert(s[j] == whole[j]);
    }
    assert(s[d] == '.');
    lemma_int_frac_split(s, d);
    assert(s.take(d) =~= whole);
    assert(s.skip(d + 1) =~= frac);
}

} // verus!
