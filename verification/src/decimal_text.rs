//! Decimal strings: parsing request values and printing amounts.
//!
//! A value on the wire is a decimal string such as `"100"`, `"-3.25"` or
//! `"+0.5"`: an optional sign, at least one integer digit, and an optional
//! fraction of at most twenty digits. [`parse_amount`] accepts exactly the
//! strings of that shape whose value fits the working range of [`Amount`],
//! and returns their exact value. [`format_amount`] prints an amount in the
//! canonical form: no plus sign, no leading zeros except a lone `0`, and a
//! fraction only when it is non-zero, with trailing zeros removed.

use crate::amount::{Amount, UNIT};
use vstd::prelude::*;
use vstd::string::StringSliceAdditionalSpecFns;

verus! {

pub const BYTE_PLUS: u8 = 43;
pub const BYTE_MINUS: u8 = 45;
pub const BYTE_DOT: u8 = 46;
pub const BYTE_ZERO: u8 = 48;
pub const BYTE_NINE: u8 = 57;

/// Upper bound (exclusive) on the whole part of a parsed value: `10^17`.
pub const MAX_WHOLE: i128 = 100_000_000_000_000_000;

pub open spec fn is_digit(b: u8) -> bool {
    BYTE_ZERO <= b <= BYTE_NINE
}

/// A non-empty run of decimal digits.
pub open spec fn digits_ok(s: Seq<u8>) -> bool {
    s.len() > 0 && (forall|i: int| 0 <= i < s.len() ==> is_digit(#[trigger] s[i]))
}

/// The number written by a digit run, most significant digit first.
pub open spec fn digits_value(s: Seq<u8>) -> int
    decreases s.len(),
{
    if s.len() == 0 {
        0
    } else {
        digits_value(s.drop_last()) * 10 + (s.last() - BYTE_ZERO)
    }
}

pub open spec fn pow10(n: nat) -> int
    decreases n,
{
    if n == 0 {
        1
    } else {
        10 * pow10((n - 1) as nat)
    }
}

/// Index of the first `.`, or the length when there is none.
pub open spec fn find_dot(s: Seq<u8>) -> int
    decreases s.len(),
{
    if s.len() == 0 {
        0
    } else if s[0] == BYTE_DOT {
        0
    } else {
        1 + find_dot(s.drop_first())
    }
}

/// The string with a leading sign removed.
pub open spec fn body_of(s: Seq<u8>) -> Seq<u8> {
    if s.len() > 0 && (s[0] == BYTE_PLUS || s[0] == BYTE_MINUS) {
        s.drop_first()
    } else {
        s
    }
}

pub open spec fn is_negative_str(s: Seq<u8>) -> bool {
    s.len() > 0 && s[0] == BYTE_MINUS
}

pub open spec fn int_part(b: Seq<u8>) -> Seq<u8> {
    b.take(find_dot(b))
}

pub open spec fn frac_part(b: Seq<u8>) -> Seq<u8> {
    if find_dot(b) == b.len() {
        Seq::empty()
    } else {
        b.skip(find_dot(b) + 1)
    }
}

/// Shape of an accepted decimal string: sign? digits ( '.' digits )?
pub open spec fn decimal_grammar_ok(s: Seq<u8>) -> bool {
    let b = body_of(s);
    &&& digits_ok(int_part(b))
    &&& (find_dot(b) == b.len() || digits_ok(frac_part(b)))
}

/// Whether the written value fits the working range of an `Amount`.
pub open spec fn decimal_representable(s: Seq<u8>) -> bool {
    let b = body_of(s);
    &&& frac_part(b).len() <= 20
    &&& digits_value(int_part(b)) < MAX_WHOLE
}

/// The exact value of an accepted decimal string, in `10^-20` units.
pub open spec fn decimal_units(s: Seq<u8>) -> int {
    let b = body_of(s);
    let magnitude = digits_value(int_part(b)) * UNIT + digits_value(frac_part(b)) * pow10(
        (20 - frac_part(b).len()) as nat,
    );
    if is_negative_str(s) {
        -magnitude
    } else {
        magnitude
    }
}

pub proof fn lemma_digits_value_bound(s: Seq<u8>)
    requires
        forall|i: int| 0 <= i < s.len() ==> is_digit(#[trigger] s[i]),
    ensures
        0 <= digits_value(s) < pow10(s.len() as nat),
    decreases s.len(),
{
    if s.len() > 0 {
        lemma_digits_value_bound(s.drop_last());
    }
}

pub proof fn lemma_pow10_pos(n: nat)
    ensures
        pow10(n) >= 1,
    decreases n,
{
    if n > 0 {
        lemma_pow10_pos((n - 1) as nat);
    }
}

pub proof fn lemma_pow10_mono(a: nat, b: nat)
    requires
        a <= b,
    ensures
        pow10(a) <= pow10(b),
    decreases b,
{
    if a < b {
        lemma_pow10_mono(a, (b - 1) as nat);
        lemma_pow10_pos((b - 1) as nat);
    }
}

/// Concatenating digit runs composes their values positionally.
pub proof fn lemma_digits_value_concat(a: Seq<u8>, b: Seq<u8>)
    ensures
        digits_value(a + b) == digits_value(a) * pow10(b.len() as nat) + digits_value(b),
    decreases b.len(),
{
    if b.len() == 0 {
        assert(a + b =~= a);
    } else {
        lemma_digits_value_concat(a, b.drop_last());
        assert((a + b).drop_last() =~= a + b.drop_last());
        assert(digits_value(a) * (10 * pow10((b.len() - 1) as nat)) == (digits_value(a) * pow10(
            (b.len() - 1) as nat,
        )) * 10) by (nonlinear_arith);
    }
}

/// `find_dot` is determined by a dot-free prefix and what follows it.
pub proof fn lemma_find_dot_at(s: Seq<u8>, k: int)
    requires
        0 <= k <= s.len(),
        forall|i: int| 0 <= i < k ==> #[trigger] s[i] != BYTE_DOT,
        k == s.len() || s[k] == BYTE_DOT,
    ensures
        find_dot(s) == k,
    decreases s.len(),
{
    if s.len() > 0 && k > 0 {
        lemma_find_dot_at(s.drop_first(), k - 1);
    }
}

pub proof fn lemma_find_dot_props(s: Seq<u8>)
    ensures
        0 <= find_dot(s) <= s.len(),
        find_dot(s) < s.len() ==> s[find_dot(s)] == BYTE_DOT,
        forall|i: int| 0 <= i < find_dot(s) ==> #[trigger] s[i] != BYTE_DOT,
    decreases s.len(),
{
    if s.len() > 0 && s[0] != BYTE_DOT {
        lemma_find_dot_props(s.drop_first());
        assert forall|i: int| 0 <= i < find_dot(s) implies #[trigger] s[i] != BYTE_DOT by {
            if i > 0 {
                assert(s.drop_first()[i - 1] == s[i]);
            }
        }
    }
}

/// A byte that is neither a digit nor a dot, preceded by digits only,
/// breaks the integer part of the grammar.
proof fn lemma_bad_byte_breaks_int_part(b: Seq<u8>, k: int)
    requires
        0 <= k < b.len(),
        forall|j: int| 0 <= j < k ==> is_digit(#[trigger] b[j]),
        !is_digit(b[k]),
        b[k] != BYTE_DOT,
    ensures
        !digits_ok(int_part(b)),
{
    lemma_find_dot_props(b);
    let fd = find_dot(b);
    if fd <= k {
        if fd < k {
            assert(is_digit(b[fd]));
            assert(false);
        } else {
            assert(false);
        }
    } else {
        assert(int_part(b)[k] == b[k]);
        assert(!is_digit(int_part(b)[k]));
    }
}

/// `pow10(20)` is the unit scale.
pub proof fn lemma_pow10_20()
    ensures
        pow10(20) == UNIT,
{
    reveal_with_fuel(pow10, 21);
}

/// `10^e` for `e <= 20`, as an executable value.
pub fn pow10_exec(e: usize) -> (r: i128)
    requires
        e <= 20,
    ensures
        r as int == pow10(e as nat),
        1 <= r <= UNIT,
{
    proof {
        lemma_pow10_20();
    }
    let mut r: i128 = 1;
    let mut j: usize = 0;
    while j < e
        invariant
            0 <= j <= e <= 20,
            r as int == pow10(j as nat),
            pow10(20) == UNIT,
        decreases e - j,
    {
        proof {
            lemma_pow10_mono((j + 1) as nat, 20);
            lemma_pow10_pos(j as nat);
        }
        r = r * 10;
        j = j + 1;
    }
    proof {
        lemma_pow10_pos(e as nat);
        lemma_pow10_mono(e as nat, 20);
    }
    r
}

/// Parses a decimal string. Returns `Some` exactly when the string matches
/// the grammar `sign? digits ('.' digits)?` and its value fits the working
/// range; the result is then the exact value.
#[verifier::rlimit(100)]
pub fn parse_amount(s: &str) -> (r: Option<Amount>)
    ensures
        r is Some <==> decimal_grammar_ok(s.spec_bytes()) && decimal_representable(s.spec_bytes()),
        r matches Some(a) ==> a@ == decimal_units(s.spec_bytes()) && a.in_range(),
{
    let b = s.as_bytes();
    let n = b.len();
    let ghost sb = s.spec_bytes();

    let mut i: usize = 0;
    let mut neg = false;
    if n > 0 && (b[0] == BYTE_PLUS || b[0] == BYTE_MINUS) {
        neg = b[0] == BYTE_MINUS;
        i = 1;
    }
    let sign_len: usize = i;
    let ghost start = i as int;
    let ghost body = sb.skip(start);
    proof {
        assert(body_of(sb) =~= body);
        assert(neg == is_negative_str(sb));
    }

    // Integer digits, up to the dot or the end.
    let mut whole: i128 = 0;
    while i < n && b[i] != BYTE_DOT
        invariant
            start <= i as int <= n as int,
            0 <= start <= 1,
            n == sb.len(),
            sb == s.spec_bytes(),
            b@ == sb,
            body == sb.skip(start),
            body_of(sb) == body,
            forall|j: int| start <= j < i as int ==> is_digit(#[trigger] sb[j]),
            whole == digits_value(sb.subrange(start, i as int)),
            0 <= whole < MAX_WHOLE,
        decreases n - i,
    {
        let c = b[i];
        proof {
            assert(forall|j: int| 0 <= j < i - start ==> is_digit(#[trigger] body[j]));
        }
        if c < BYTE_ZERO || c > BYTE_NINE {
            proof {
                assert(body[i as int - start] == sb[i as int]);
                lemma_bad_byte_breaks_int_part(body, i as int - start);
            }
            return None;
        }
        let d = (c - BYTE_ZERO) as i128;
        let next = whole * 10 + d;
        if next >= MAX_WHOLE {
            // The integer part alone is already out of range.
            proof {
                let scanned = sb.subrange(start, i as int + 1);
                assert(scanned.drop_last() =~= sb.subrange(start, i as int));
                assert(digits_value(scanned) == next);
                if decimal_grammar_ok(sb) {
                    lemma_find_dot_props(body);
                    let fd = find_dot(body);
                    assert(fd >= i + 1 - start) by {
                        if fd < i + 1 - start {
                            assert(is_digit(body[fd]));
                        }
                    }
                    let ip = int_part(body);
                    let rest = ip.skip(i as int + 1 - start);
                    assert(ip =~= scanned + rest);
                    lemma_digits_value_concat(scanned, rest);
                    assert(forall|j: int|
                        0 <= j < rest.len() ==> is_digit(#[trigger] rest[j])) by {
                        assert(forall|j: int|
                            0 <= j < rest.len() ==> rest[j] == int_part(body)[j + i + 1
                                - start]);
                    }
                    lemma_digits_value_bound(rest);
                    lemma_pow10_pos(rest.len() as nat);
                    assert(digits_value(scanned) * pow10(rest.len() as nat) >= digits_value(
                        scanned,
                    )) by (nonlinear_arith)
                        requires
                            digits_value(scanned) >= 0,
                            pow10(rest.len() as nat) >= 1,
                    ;
                    assert(!decimal_representable(sb));
                }
            }
            return None;
        }
        whole = next;
        proof {
            assert(sb.subrange(start, i as int + 1).drop_last() =~= sb.subrange(
                start,
                i as int,
            ));
        }
        i = i + 1;
    }

    if i == sign_len {
        // Empty integer part: the grammar demands at least one digit.
        proof {
            if i < n {
                lemma_find_dot_at(body, 0);
                assert(int_part(body) =~= Seq::<u8>::empty());
            } else {
                assert(int_part(body) =~= Seq::<u8>::empty());
            }
        }
        return None;
    }

    if i == n {
        // No fraction.
        proof {
            lemma_find_dot_at(body, body.len() as int);
            assert(int_part(body) =~= body);
            assert(sb.subrange(start, n as int) =~= body);
            lemma_pow10_20();
        }
        let units = whole * UNIT;
        let units = if neg {
            -units
        } else {
            units
        };
        proof {
            assert(whole * UNIT <= (MAX_WHOLE - 1) * UNIT && whole * UNIT >= 0)
                by (nonlinear_arith)
                requires
                    0 <= whole <= MAX_WHOLE - 1,
            ;
            assert(frac_part(body) =~= Seq::<u8>::empty());
            assert(digits_value(frac_part(body)) == 0);
            assert(whole == digits_value(int_part(body)));
            assert(decimal_units(sb) == (if is_negative_str(sb) {
                -(digits_value(int_part(body)) * UNIT)
            } else {
                digits_value(int_part(body)) * UNIT
            }));
            assert(decimal_grammar_ok(sb));
            assert(decimal_representable(sb));
        }
        return Some(Amount::from_units(units));
    }

    // A dot: fixed fraction position.
    let ghost fd = i as int - start;
    proof {
        lemma_find_dot_at(body, fd);
        assert(int_part(body) =~= sb.subrange(start, i as int));
    }
    i = i + 1;
    let ghost fstart = i as int;
    let flen = n - i;
    proof {
        assert(frac_part(body) =~= sb.skip(fstart));
    }
    if flen > 20 {
        return None;
    }
    if flen == 0 {
        // "5." has an empty fraction, which the grammar rejects.
        proof {
            assert(frac_part(body) =~= Seq::<u8>::empty());
        }
        return None;
    }

    let mut fval: i128 = 0;
    proof {
        lemma_pow10_20();
    }
    while i < n
        invariant
            1 <= fstart <= i as int <= n as int,
            n == sb.len(),
            sb == s.spec_bytes(),
            b@ == sb,
            body == sb.skip(start),
            body_of(sb) == body,
            0 <= start <= 1,
            fstart == find_dot(body) + 1 + start,
            frac_part(body) == sb.skip(fstart),
            find_dot(body) < body.len(),
            n as int - fstart <= 20,
            forall|j: int| fstart <= j < i as int ==> is_digit(#[trigger] sb[j]),
            fval == digits_value(sb.subrange(fstart, i as int)),
            0 <= fval < pow10((i - fstart) as nat),
            pow10(20) == UNIT,
        decreases n - i,
    {
        let c = b[i];
        if c < BYTE_ZERO || c > BYTE_NINE {
            // A non-digit inside the fraction breaks the grammar.
            proof {
                let fp = frac_part(body);
                assert(fp[i as int - fstart] == sb[i as int]);
                assert(!digits_ok(fp));
            }
            return None;
        }
        let d = (c - BYTE_ZERO) as i128;
        proof {
            lemma_pow10_mono((i as int + 1 - fstart) as nat, 20);
            assert(fval * 10 + d < pow10((i as int + 1 - fstart) as nat)) by (nonlinear_arith)
                requires
                    0 <= fval < pow10((i as int - fstart) as nat),
                    0 <= d <= 9,
                    pow10((i as int + 1 - fstart) as nat) == 10 * pow10(
                        (i as int - fstart) as nat,
                    ),
            ;
        }
        fval = fval * 10 + d;
        proof {
            assert(sb.subrange(fstart, i as int + 1).drop_last() =~= sb.subrange(
                fstart,
                i as int,
            ));
        }
        i = i + 1;
    }

    proof {
        assert(sb.subrange(fstart, n as int) =~= frac_part(body));
    }
    let scale = pow10_exec(20 - flen);
    proof {
        let fl = (n - fstart) as nat;
        assert(pow10(fl) * pow10((20 - fl) as nat) == pow10(20)) by {
            lemma_pow10_split(fl, (20 - fl) as nat);
        }
        assert(0 <= fval * scale && fval * scale < UNIT) by (nonlinear_arith)
            requires
                0 <= fval < pow10(fl),
                scale as int == pow10((20 - fl) as nat),
                scale >= 1,
                pow10(fl) * pow10((20 - fl) as nat) == UNIT,
        ;
        assert(whole * UNIT <= (MAX_WHOLE - 1) * UNIT && whole * UNIT >= 0) by (nonlinear_arith)
            requires
                0 <= whole <= MAX_WHOLE - 1,
        ;
    }
    let frac_units = fval * scale;
    let units = whole * UNIT + frac_units;
    let units = if neg {
        -units
    } else {
        units
    };
    Some(Amount::from_units(units))
}

/// `10^(a+b) == 10^a * 10^b`.
pub proof fn lemma_pow10_split(a: nat, b: nat)
    ensures
        pow10(a) * pow10(b) == pow10(a + b),
    decreases a,
{
    if a == 0 {
        assert(pow10(0) * pow10(b) == pow10(b));
    } else {
        lemma_pow10_split((a - 1) as nat, b);
        assert((10 * pow10((a - 1) as nat)) * pow10(b) == 10 * (pow10((a - 1) as nat) * pow10(b)))
            by (nonlinear_arith);
    }
}

/// Decimal digits of `n`, most significant first, no leading zeros
/// (a single `0` for zero).
pub open spec fn dec_digits(n: nat) -> Seq<u8>
    decreases n,
{
    if n < 10 {
        seq![(BYTE_ZERO + n) as u8]
    } else {
        dec_digits(n / 10).push((BYTE_ZERO + n % 10) as u8)
    }
}

/// Exactly `width` decimal digits of `n`, most significant first,
/// padded with leading zeros.
pub open spec fn padded_digits(n: nat, width: nat) -> Seq<u8>
    decreases width,
{
    if width == 0 {
        Seq::empty()
    } else {
        padded_digits(n / 10, (width - 1) as nat).push((BYTE_ZERO + n % 10) as u8)
    }
}

/// The run without its trailing zero digits.
pub open spec fn trim_trailing_zeros(s: Seq<u8>) -> Seq<u8>
    decreases s.len(),
{
    if s.len() > 0 && s.last() == BYTE_ZERO {
        trim_trailing_zeros(s.drop_last())
    } else {
        s
    }
}

/// Canonical decimal spelling of a value of `u` units: optional minus sign,
/// whole part without leading zeros, and the non-zero fraction with
/// trailing zeros removed.
pub open spec fn decimal_bytes(u: int) -> Seq<u8> {
    let a = if u < 0 {
        -u
    } else {
        u
    };
    let w = (a / (UNIT as int)) as nat;
    let f = (a % (UNIT as int)) as nat;
    let sign: Seq<u8> = if u < 0 {
        seq![BYTE_MINUS]
    } else {
        Seq::empty()
    };
    sign + dec_digits(w) + if f == 0 {
        Seq::<u8>::empty()
    } else {
        seq![BYTE_DOT] + trim_trailing_zeros(padded_digits(f, 20))
    }
}

/// A fixed-width digit block writes back its number.
proof fn lemma_padded_digits_value(n: nat, width: nat)
    requires
        n < pow10(width),
    ensures
        digits_value(padded_digits(n, width)) == n,
        padded_digits(n, width).len() == width,
    decreases width,
{
    if width > 0 {
        assert(n / 10 < pow10((width - 1) as nat)) by (nonlinear_arith)
            requires
                n < pow10(width),
                pow10(width) == 10 * pow10((width - 1) as nat),
                n >= 0,
        ;
        lemma_padded_digits_value(n / 10, (width - 1) as nat);
        assert(padded_digits(n, width).drop_last() =~= padded_digits(n / 10, (width - 1) as nat));
        assert(n == (n / 10) * 10 + n % 10) by (nonlinear_arith);
    }
}

/// An all-zero digit block writes zero.
proof fn lemma_digits_value_zeros(s: Seq<u8>)
    requires
        forall|i: int| 0 <= i < s.len() ==> #[trigger] s[i] == BYTE_ZERO,
    ensures
        digits_value(s) == 0,
    decreases s.len(),
{
    if s.len() > 0 {
        lemma_digits_value_zeros(s.drop_last());
    }
}

/// Trimming a run whose zeros start exactly at `m` keeps its first `m` bytes.
proof fn lemma_trim_at(s: Seq<u8>, m: int)
    requires
        0 <= m <= s.len(),
        forall|i: int| m <= i < s.len() ==> #[trigger] s[i] == BYTE_ZERO,
        m == 0 || s[m - 1] != BYTE_ZERO,
    ensures
        trim_trailing_zeros(s) == s.take(m),
    decreases s.len(),
{
    if s.len() == m {
        assert(s.take(m) =~= s);
    } else {
        lemma_trim_at(s.drop_last(), m);
        assert(s.drop_last().take(m) =~= s.take(m));
    }
}

/// Prints an amount in canonical decimal form.
pub fn format_amount(a: &Amount) -> (r: Vec<u8>)
    requires
        a@ > i128::MIN,
    ensures
        r@ == decimal_bytes(a@),
{
    let u = a.units();
    let mut out: Vec<u8> = Vec::new();
    let neg = u < 0;
    if neg {
        out.push(BYTE_MINUS);
    }
    let ghost sign: Seq<u8> = if neg {
        seq![BYTE_MINUS]
    } else {
        Seq::empty()
    };
    proof {
        assert(out@ =~= sign);
    }
    let au: i128 = if neg {
        -u
    } else {
        u
    };
    let w: i128 = au / UNIT;
    let f: i128 = au % UNIT;

    // Whole part, collected least significant digit first, then reversed.
    let mut tmp: Vec<u8> = Vec::new();
    let mut x: i128 = w;
    let d0: u8 = BYTE_ZERO + (x % 10) as u8;
    tmp.push(d0);
    x = x / 10;
    proof {
        if x > 0 {
            assert(dec_digits(w as nat) =~= dec_digits(x as nat) + tmp@.reverse());
        } else {
            assert(dec_digits(w as nat) =~= tmp@.reverse());
        }
    }
    while x > 0
        invariant
            0 <= x <= w,
            w >= 0,
            tmp.len() >= 1,
            if x > 0 {
                dec_digits(w as nat) == dec_digits(x as nat) + tmp@.reverse()
            } else {
                dec_digits(w as nat) == tmp@.reverse()
            },
        decreases x,
    {
        let d: u8 = BYTE_ZERO + (x % 10) as u8;
        let ghost old_tmp = tmp@;
        let ghost old_x = x as int;
        tmp.push(d);
        x = x / 10;
        proof {
            assert(tmp@.reverse() =~= seq![d] + old_tmp.reverse());
            if old_x >= 10 {
                assert(dec_digits(old_x as nat) == dec_digits((old_x as nat) / 10).push(d));
                assert(dec_digits((old_x as nat) / 10) + (seq![d] + old_tmp.reverse())
                    =~= (dec_digits((old_x as nat) / 10).push(d)) + old_tmp.reverse());
            } else {
                assert(dec_digits(old_x as nat) =~= seq![d]);
                assert(seq![d] + old_tmp.reverse() =~= dec_digits(old_x as nat)
                    + old_tmp.reverse());
            }
        }
    }
    let digit_count = tmp.len();
    let mut k: usize = 0;
    while k < digit_count
        invariant
            0 <= k <= digit_count,
            digit_count == tmp.len(),
            dec_digits(w as nat) == tmp@.reverse(),
            out@ == sign + tmp@.reverse().take(k as int),
        decreases digit_count - k,
    {
        let ghost old_out = out@;
        out.push(tmp[digit_count - 1 - k]);
        proof {
            assert(out@ =~= sign + tmp@.reverse().take(k as int + 1));
        }
        k = k + 1;
    }
    proof {
        assert(tmp@.reverse().take(tmp@.len() as int) =~= tmp@.reverse());
    }

    if f == 0 {
        proof {
            assert(out@ =~= decimal_bytes(a@));
        }
        return out;
    }

    out.push(BYTE_DOT);
    let ghost head = sign + dec_digits(w as nat) + seq![BYTE_DOT];
    proof {
        assert(out@ =~= head);
        lemma_pow10_20();
    }

    // Fraction: exactly twenty digits, low digit first, then the trailing
    // zeros are skipped and the rest written back in order.
    let mut frac: Vec<u8> = Vec::new();
    let mut y: i128 = f;
    let mut j: usize = 0;
    while j < 20
        invariant
            0 <= j <= 20,
            frac.len() == j,
            0 <= y,
            pow10(20) == UNIT,
            0 <= f < UNIT,
            padded_digits(f as nat, 20) == padded_digits(y as nat, (20 - j) as nat)
                + frac@.reverse(),
        decreases 20 - j,
    {
        let d: u8 = BYTE_ZERO + (y % 10) as u8;
        let ghost old_frac = frac@;
        let ghost old_y = y as nat;
        frac.push(d);
        y = y / 10;
        j = j + 1;
        proof {
            assert(frac@.reverse() =~= seq![d] + old_frac.reverse());
            assert(padded_digits(old_y, (20 - j + 1) as nat) == padded_digits(
                old_y / 10,
                (20 - j) as nat,
            ).push(d));
            assert(padded_digits(old_y / 10, (20 - j) as nat) + (seq![d] + old_frac.reverse())
                =~= padded_digits(old_y / 10, (20 - j) as nat).push(d) + old_frac.reverse());
        }
    }
    let ghost padded = padded_digits(f as nat, 20);
    proof {
        assert(padded_digits(y as nat, 0) =~= Seq::<u8>::empty());
        assert(padded =~= frac@.reverse());
        assert(padded.len() == 20) by {
            lemma_padded_digits_value(f as nat, 20);
        }
    }

    let mut z: usize = 0;
    while z < 20 && frac[z] == BYTE_ZERO
        invariant
            0 <= z <= 20,
            frac.len() == 20,
            forall|i: int| 0 <= i < z ==> #[trigger] frac@[i] == BYTE_ZERO,
        decreases 20 - z,
    {
        z = z + 1;
    }
    proof {
        if z == 20 {
            assert(forall|i: int|
                0 <= i < padded.len() ==> #[trigger] padded[i] == BYTE_ZERO) by {
                assert(forall|i: int|
                    0 <= i < padded.len() ==> padded[i] == frac@[19 - i]);
            }
            lemma_digits_value_zeros(padded);
            lemma_padded_digits_value(f as nat, 20);
            assert(false);
        }
        assert(forall|i: int|
            20 - z <= i < padded.len() ==> #[trigger] padded[i] == BYTE_ZERO) by {
            assert(forall|i: int| 0 <= i < padded.len() ==> padded[i] == frac@[19 - i]);
        }
        assert(padded[20 - z - 1] == frac@[z as int]);
        lemma_trim_at(padded, 20 - z as int);
    }

    let keep = 20 - z;
    let mut m: usize = 0;
    while m < keep
        invariant
            0 <= m <= keep,
            keep == 20 - z,
            0 <= z < 20,
            frac.len() == 20,
            padded == padded_digits(f as nat, 20),
            padded.len() == 20,
            forall|i: int| 0 <= i < padded.len() ==> #[trigger] padded[i] == frac@[19 - i],
            out@ == head + padded.take(m as int),
        decreases keep - m,
    {
        out.push(frac[19 - m]);
        proof {
            assert(out@ =~= head + padded.take(m as int + 1));
        }
        m = m + 1;
    }
    proof {
        assert(out@ =~= decimal_bytes(a@));
    }
    out
}

} // verus!
