//! World files: six plain decimal numbers, one per line, in the fixed slot
//! order of the geotransform; rendering, parsing and their round trip.

use vstd::prelude::*;
use vstd::arithmetic::div_mod::lemma_div_pos_is_pos;
use vstd::arithmetic::div_mod::lemma_fundamental_div_mod;
use vstd::arithmetic::div_mod::lemma_mod_bound;
use vstd::arithmetic::div_mod::lemma_mul_mod_noop_left;
use vstd::arithmetic::div_mod::lemma_multiply_divide_lt;
use vstd::arithmetic::div_mod::lemma_small_mod;
use vstd::math::abs;

use crate::frac::Frac;
use crate::frac::FracV;

verus! {

/// Most fractional digits a rendered value carries; a longer expansion is
/// truncated. Eighteen digits keep any parsed line's numerator inside
/// `i128` together with [`MAX_INT_DIGITS`].
pub const MAX_FRAC_DIGITS: usize = 18;

/// Most integer digits a parsed value may have: enough for any value the
/// geotransform derivation can produce, while an accepted line's numerator
/// still fits the machine word.
pub const MAX_INT_DIGITS: usize = 20;

/// Largest denominator the renderer accepts: far above every denominator
/// the geotransform derivation can produce, and small enough that one more
/// decimal digit of remainder still fits the machine word.
pub const MAX_FORMAT_DEN: i128 = 1000000000000000000000000000000000000;

/// `10^k`.
pub open spec fn spec_pow10(k: nat) -> int
    decreases k,
{
    if k == 0 {
        1
    } else {
        10 * spec_pow10((k - 1) as nat)
    }
}

/// The ASCII decimal digits of `n >= 0`, most significant first, without
/// leading zeros (`0` itself is the single digit `0`).
pub open spec fn spec_digits(n: int) -> Seq<u8>
    decreases n,
{
    if n < 10 {
        seq![(48 + n) as u8]
    } else {
        spec_digits(n / 10).push((48 + n % 10) as u8)
    }
}

/// The byte is an ASCII decimal digit.
pub open spec fn spec_is_digit(b: u8) -> bool {
    48 <= b <= 57
}

/// Every byte of the sequence is an ASCII decimal digit.
pub open spec fn spec_all_digits(s: Seq<u8>) -> bool {
    forall|i: int| 0 <= i < s.len() ==> spec_is_digit(#[trigger] s[i])
}

/// The number denoted by a sequence of ASCII decimal digits, most
/// significant first.
pub open spec fn spec_digits_val(s: Seq<u8>) -> int
    decreases s.len(),
{
    if s.len() == 0 {
        0
    } else {
        spec_digits_val(s.drop_last()) * 10 + (s.last() - 48)
    }
}

/// `10^k` is positive.
pub proof fn lemma_pow10_pos(k: nat)
    ensures
        spec_pow10(k) >= 1,
    decreases k,
{
    if k > 0 {
        lemma_pow10_pos((k - 1) as nat);
    }
}

/// Rendering a nonnegative number gives at least one digit, all of them
/// ASCII digits, and reading them back yields the number again.
pub proof fn lemma_digits_roundtrip(n: int)
    requires
        n >= 0,
    ensures
        spec_digits(n).len() >= 1,
        spec_all_digits(spec_digits(n)),
        spec_digits_val(spec_digits(n)) == n,
    decreases n,
{
    if n < 10 {
        let s = spec_digits(n);
        assert(s.drop_last() =~= Seq::<u8>::empty());
        assert(((48 + n) as u8) as int == 48 + n);
        assert(s.len() == 1);
        assert(s.last() == (48 + n) as u8);
        assert(spec_digits_val(s.drop_last()) == 0);
        assert(spec_digits_val(s) == spec_digits_val(s.drop_last()) * 10 + (s.last() - 48));
        assert(spec_digits_val(s) == n);
    } else {
        lemma_digits_roundtrip(n / 10);
        let s = spec_digits(n);
        assert(s.drop_last() =~= spec_digits(n / 10));
        lemma_fundamental_div_mod(n, 10);
        assert(0 <= n % 10 < 10);
        assert(((48 + n % 10) as u8) as int == 48 + n % 10);
    }
}

/// A number below `10^k` renders to at most `k` digits.
pub proof fn lemma_digits_len(n: int, k: nat)
    requires
        0 <= n < spec_pow10(k),
        k >= 1,
    ensures
        spec_digits(n).len() <= k,
    decreases n,
{
    if n < 10 {
    } else {
        assert(spec_pow10(k) == 10 * spec_pow10((k - 1) as nat));
        lemma_multiply_divide_lt(n, 10, spec_pow10((k - 1) as nat));
        if k == 1 {
            lemma_pow10_pos(0);
            assert(false);
        }
        lemma_digits_len(n / 10, (k - 1) as nat);
    }
}

/// Concatenating digit runs concatenates their place values.
pub proof fn lemma_digits_val_concat(a: Seq<u8>, b: Seq<u8>)
    ensures
        spec_digits_val(a + b) == spec_digits_val(a) * spec_pow10(b.len()) + spec_digits_val(b),
    decreases b.len(),
{
    if b.len() == 0 {
        assert(a + b =~= a);
    } else {
        lemma_digits_val_concat(a, b.drop_last());
        assert((a + b).drop_last() =~= a + b.drop_last());
        assert((a + b).last() == b.last());
        let va = spec_digits_val(a);
        let p1 = spec_pow10((b.len() - 1) as nat);
        let p = spec_pow10(b.len());
        assert(p == 10 * p1);
        assert((va * p1) * 10 == va * p) by (nonlinear_arith)
            requires
                p == 10 * p1,
        ;
    }
}

/// The fractional digits of `rem / den`, at most `k` of them, stopping
/// early when the expansion terminates.
pub open spec fn spec_frac_digits(rem: int, den: int, k: nat) -> Seq<u8>
    decreases k,
{
    if k == 0 || rem == 0 {
        Seq::empty()
    } else {
        seq![(48 + (rem * 10) / den) as u8] + spec_frac_digits((rem * 10) % den, den, (k - 1) as nat)
    }
}

/// The remainder still unrendered after those digits.
pub open spec fn spec_frac_rem(rem: int, den: int, k: nat) -> int
    decreases k,
{
    if k == 0 || rem == 0 {
        rem
    } else {
        spec_frac_rem((rem * 10) % den, den, (k - 1) as nat)
    }
}

/// The fractional digit run is made of digits, is no longer than asked,
/// and denotes exactly the rendered part of `rem / den`:
/// `rem * 10^len == value * den + leftover`.
pub proof fn lemma_frac_digits(rem: int, den: int, k: nat)
    requires
        0 < den,
        0 <= rem < den,
    ensures
        spec_all_digits(spec_frac_digits(rem, den, k)),
        spec_frac_digits(rem, den, k).len() <= k,
        0 <= spec_frac_rem(rem, den, k) < den,
        rem * spec_pow10(spec_frac_digits(rem, den, k).len()) == spec_digits_val(
            spec_frac_digits(rem, den, k),
        ) * den + spec_frac_rem(rem, den, k),
        rem != 0 && k > 0 ==> spec_frac_digits(rem, den, k).len() >= 1,
    decreases k,
{
    if k == 0 || rem == 0 {
        assert(spec_pow10(0) == 1);
    } else {
        let d0 = (rem * 10) / den;
        let rem1 = (rem * 10) % den;
        assert(0 <= rem * 10 && rem * 10 < den * 10) by (nonlinear_arith)
            requires
                0 < den,
                0 <= rem < den,
        ;
        lemma_div_pos_is_pos(rem * 10, den);
        lemma_multiply_divide_lt(rem * 10, den, 10);
        lemma_fundamental_div_mod(rem * 10, den);
        lemma_frac_digits(rem1, den, (k - 1) as nat);
        let head = seq![(48 + d0) as u8];
        let tail = spec_frac_digits(rem1, den, (k - 1) as nat);
        assert(spec_frac_digits(rem, den, k) == head + tail);
        assert(spec_all_digits(head + tail)) by {
            assert(forall|i: int|
                0 <= i < (head + tail).len() ==> spec_is_digit(#[trigger] (head + tail)[i]));
        }
        lemma_digits_val_concat(head, tail);
        assert(head.drop_last() =~= Seq::<u8>::empty());
        assert(((48 + d0) as u8) as int == 48 + d0);
        assert(head.len() == 1);
        assert(head.last() == (48 + d0) as u8);
        assert(spec_digits_val(head.drop_last()) == 0);
        assert(spec_digits_val(head) == spec_digits_val(head.drop_last()) * 10 + (head.last()
            - 48));
        assert(spec_digits_val(head) == d0);
        let p = spec_pow10(tail.len());
        let vt = spec_digits_val(tail);
        let fr = spec_frac_rem(rem1, den, (k - 1) as nat);
        assert(spec_frac_rem(rem, den, k) == fr);
        // rem * 10^(1 + |tail|) == (d0 * 10^|tail| + vt) * den + fr
        assert(spec_pow10((1 + tail.len()) as nat) == 10 * p);
        assert(rem * (10 * p) == (d0 * p + vt) * den + fr) by (nonlinear_arith)
            requires
                rem * 10 == den * d0 + rem1,
                rem1 * p == vt * den + fr,
        ;
        assert((head + tail).len() == 1 + tail.len());
    }
}

/// The rendering of the fraction `v`: an optional minus sign, the integer
/// part's digits, and, unless the expansion is exact already, a decimal
/// point and up to [`MAX_FRAC_DIGITS`] fractional digits, truncated beyond
/// that.
pub open spec fn spec_format_frac(v: FracV) -> Seq<u8> {
    let m = abs(v.num) as int;
    let q = m / v.den;
    let rem = m % v.den;
    let sign: Seq<u8> = if v.num < 0 {
        seq![45u8]
    } else {
        Seq::empty()
    };
    let frac: Seq<u8> = if rem == 0 {
        Seq::empty()
    } else {
        seq![46u8] + spec_frac_digits(rem, v.den, MAX_FRAC_DIGITS as nat)
    };
    sign + spec_digits(q) + frac
}

/// Appends the decimal digits of `n`.
fn push_digits(n: u128, out: &mut Vec<u8>)
    ensures
        final(out)@ == old(out)@ + spec_digits(n as int),
    decreases n,
{
    if n >= 10 {
        push_digits(n / 10, out);
    }
    let d: u8 = ((n % 10) as u8) + 48;
    out.push(d);
    proof {
        assert(out@ =~= old(out)@ + spec_digits(n as int));
    }
}

/// Renders `f` as plain decimal text, the world-file number format.
pub fn format_frac(f: &Frac) -> (r: Vec<u8>)
    requires
        f.wf(),
        f.num > i128::MIN,
        f.den <= MAX_FORMAT_DEN,
    ensures
        r@ == spec_format_frac(f@),
{
    let neg: bool = f.num < 0;
    let m: u128 = if neg {
        (-f.num) as u128
    } else {
        f.num as u128
    };
    let d: u128 = f.den as u128;
    let q: u128 = m / d;
    let rem0: u128 = m % d;
    let mut out: Vec<u8> = Vec::new();
    if neg {
        out.push(45);
    }
    let ghost sign_part = out@;
    push_digits(q, &mut out);
    proof {
        assert(m as int == abs(f@.num));
        assert(sign_part + spec_digits(q as int) =~= (if f@.num < 0 {
            seq![45u8]
        } else {
            Seq::<u8>::empty()
        }) + spec_digits(abs(f@.num) as int / f@.den));
    }
    if rem0 == 0 {
        proof {
            assert(out@ =~= spec_format_frac(f@));
        }
        return out;
    }
    out.push(46);
    let ghost head = out@;
    let mut rem: u128 = rem0;
    let mut k: usize = 0;
    proof {
        assert(out@.subrange(head.len() as int, out@.len() as int) =~= Seq::<u8>::empty());
        assert(Seq::<u8>::empty() + spec_frac_digits(
            rem0 as int,
            d as int,
            MAX_FRAC_DIGITS as nat,
        ) =~= spec_frac_digits(rem0 as int, d as int, MAX_FRAC_DIGITS as nat));
        assert(out@.subrange(0, head.len() as int) =~= head);
    }
    while k < MAX_FRAC_DIGITS && rem != 0
        invariant
            0 < d <= MAX_FORMAT_DEN,
            rem < d,
            0 <= k <= MAX_FRAC_DIGITS,
            spec_frac_digits(rem0 as int, d as int, MAX_FRAC_DIGITS as nat) == out@.subrange(
                head.len() as int,
                out@.len() as int,
            ) + spec_frac_digits(rem as int, d as int, (MAX_FRAC_DIGITS - k) as nat),
            out@.len() >= head.len(),
            out@.subrange(0, head.len() as int) == head,
        decreases MAX_FRAC_DIGITS - k,
    {
        proof {
            assert(0 <= (rem * 10) as int && ((rem * 10) as int) < (d * 10) as int)
                by (nonlinear_arith)
                requires
                    0 < d,
                    rem < d,
                    d <= MAX_FORMAT_DEN,
            ;
            lemma_div_pos_is_pos((rem * 10) as int, d as int);
            lemma_multiply_divide_lt((rem * 10) as int, d as int, 10);
        }
        let dig: u8 = ((rem * 10) / d) as u8;
        let ghost out_before = out@;
        let ghost rem_before = rem;
        out.push(dig + 48);
        rem = (rem * 10) % d;
        k = k + 1;
        proof {
            let j = (MAX_FRAC_DIGITS - (k - 1)) as nat;
            assert(spec_frac_digits(rem_before as int, d as int, j) == seq![
                (48 + (rem_before * 10) / (d as int)) as u8,
            ] + spec_frac_digits(rem as int, d as int, (j - 1) as nat));
            assert(out@.subrange(head.len() as int, out@.len() as int) =~= out_before.subrange(
                head.len() as int,
                out_before.len() as int,
            ) + seq![(48 + (rem_before * 10) / (d as int)) as u8]);
            assert(spec_frac_digits(rem0 as int, d as int, MAX_FRAC_DIGITS as nat) =~= out@.subrange(
                head.len() as int,
                out@.len() as int,
            ) + spec_frac_digits(rem as int, d as int, (MAX_FRAC_DIGITS - k) as nat));
            assert(out@.subrange(0, head.len() as int) =~= head);
        }
    }
    proof {
        assert(spec_frac_digits(rem as int, d as int, (MAX_FRAC_DIGITS - k) as nat)
            =~= Seq::<u8>::empty());
        assert(out@ =~= out@.subrange(0, head.len() as int) + out@.subrange(
            head.len() as int,
            out@.len() as int,
        ));
        assert(out@ =~= spec_format_frac(f@));
    }
    out
}

/// Digit runs denote nonnegative numbers below `10 ^ length`.
pub proof fn lemma_digits_val_bound(s: Seq<u8>)
    requires
        spec_all_digits(s),
    ensures
        0 <= spec_digits_val(s) < spec_pow10(s.len()),
    decreases s.len(),
{
    if s.len() == 0 {
    } else {
        assert(spec_all_digits(s.drop_last())) by {
            assert(forall|i: int|
                0 <= i < s.len() - 1 ==> #[trigger] s.drop_last()[i] == s[i]);
        }
        lemma_digits_val_bound(s.drop_last());
        let v1 = spec_digits_val(s.drop_last());
        let p1 = spec_pow10((s.len() - 1) as nat);
        let d = s.last() - 48;
        assert(spec_is_digit(s.last()));
        assert(spec_pow10(s.len()) == 10 * p1);
        assert(0 <= v1 * 10 + d < 10 * p1) by (nonlinear_arith)
            requires
                0 <= v1 < p1,
                0 <= d <= 9,
        ;
    }
}

/// `10^a <= 10^b` when `a <= b`.
pub proof fn lemma_pow10_mono(a: nat, b: nat)
    requires
        a <= b,
    ensures
        spec_pow10(a) <= spec_pow10(b),
    decreases b,
{
    if a < b {
        lemma_pow10_mono(a, (b - 1) as nat);
        lemma_pow10_pos((b - 1) as nat);
    }
}

/// The concrete values of the powers of ten the parser is bounded by.
pub proof fn lemma_pow10_concrete()
    ensures
        spec_pow10(18) == 1000000000000000000,
        spec_pow10(20) == 100000000000000000000,
{
    reveal_with_fuel(spec_pow10, 21);
}

/// Pinpoints the first occurrence of a byte in a sequence.
pub proof fn lemma_index_of_first_is(s: Seq<u8>, x: u8, i: int)
    requires
        0 <= i < s.len(),
        s[i] == x,
        forall|j: int| 0 <= j < i ==> s[j] != x,
    ensures
        s.index_of_first(x) == Some(i),
{
    s.index_of_first_ensures(x);
    assert(s.contains(x)) by {
        assert(s[i] == x);
    }
    match s.index_of_first(x) {
        Some(idx) => {
            if idx < i {
                assert(s[idx] != x);
                assert(false);
            }
            if idx > i {
                assert(s[i] != x);
                assert(false);
            }
        },
        None => {
            assert(false);
        },
    }
}

/// The meaning of one world-file line: an optional minus sign, one to
/// [`MAX_INT_DIGITS`] integer digits, and optionally a decimal point
/// followed by one to [`MAX_FRAC_DIGITS`] fractional digits. Anything else
/// is rejected. The digit caps keep every accepted value's numerator inside
/// the machine word; values with more digits are not accepted.
pub open spec fn spec_parse_frac_line(s: Seq<u8>) -> Option<FracV> {
    let neg = s.len() > 0 && s[0] == 45;
    let body = if neg {
        s.drop_first()
    } else {
        s
    };
    match body.index_of_first(46u8) {
        None => {
            if spec_all_digits(body) && 1 <= body.len() <= MAX_INT_DIGITS {
                Some(
                    FracV {
                        num: if neg {
                            -spec_digits_val(body)
                        } else {
                            spec_digits_val(body)
                        },
                        den: 1,
                    },
                )
            } else {
                None
            }
        },
        Some(i) => {
            let ip = body.subrange(0, i);
            let fp = body.subrange(i + 1, body.len() as int);
            if spec_all_digits(ip) && spec_all_digits(fp) && 1 <= ip.len() <= MAX_INT_DIGITS && 1
                <= fp.len() <= MAX_FRAC_DIGITS {
                let mag = spec_digits_val(ip) * spec_pow10(fp.len()) + spec_digits_val(fp);
                Some(
                    FracV {
                        num: if neg {
                            -mag
                        } else {
                            mag
                        },
                        den: spec_pow10(fp.len()),
                    },
                )
            } else {
                None
            }
        },
    }
}

/// Whether the byte is an ASCII decimal digit.
fn byte_is_digit(b: u8) -> (r: bool)
    ensures
        r == spec_is_digit(b),
{
    48 <= b && b <= 57
}

/// The number denoted by the digits `s[from..to]`.
fn digits_value(s: &[u8], from: usize, to: usize) -> (r: u128)
    requires
        from <= to <= s@.len(),
        spec_all_digits(s@.subrange(from as int, to as int)),
        to - from <= MAX_INT_DIGITS,
    ensures
        r as int == spec_digits_val(s@.subrange(from as int, to as int)),
        r < 100000000000000000000,
{
    let mut acc: u128 = 0;
    let mut i: usize = from;
    proof {
        assert(s@.subrange(from as int, from as int) =~= Seq::<u8>::empty());
    }
    while i < to
        invariant
            from <= i <= to <= s@.len(),
            to - from <= MAX_INT_DIGITS,
            spec_all_digits(s@.subrange(from as int, to as int)),
            acc as int == spec_digits_val(s@.subrange(from as int, i as int)),
            (acc as int) < spec_pow10((i - from) as nat),
        decreases to - i,
    {
        proof {
            assert(s@.subrange(from as int, to as int)[i - from] == s@[i as int]);
            lemma_pow10_mono((i + 1 - from) as nat, MAX_INT_DIGITS as nat);
            lemma_pow10_concrete();
            assert(spec_pow10((i + 1 - from) as nat) == 10 * spec_pow10((i - from) as nat));
            assert(acc * 10 + 9 < spec_pow10((i + 1 - from) as nat)) by (nonlinear_arith)
                requires
                    (acc as int) < spec_pow10((i - from) as nat),
                    0 <= acc,
                    spec_pow10((i + 1 - from) as nat) == 10 * spec_pow10((i - from) as nat),
            ;
        }
        let d: u8 = s[i] - 48;
        acc = acc * 10 + (d as u128);
        i = i + 1;
        proof {
            let prefix = s@.subrange(from as int, (i - 1) as int);
            let cur = s@.subrange(from as int, i as int);
            assert(cur.drop_last() =~= prefix);
            assert(cur.last() == s@[i - 1]);
        }
    }
    proof {
        lemma_pow10_mono((to - from) as nat, MAX_INT_DIGITS as nat);
        lemma_pow10_concrete();
    }
    acc
}

/// `10 ^ k`.
fn pow10_u128(k: usize) -> (r: u128)
    requires
        k <= MAX_FRAC_DIGITS,
    ensures
        r as int == spec_pow10(k as nat),
        1 <= r <= 1000000000000000000,
{
    let mut p: u128 = 1;
    let mut i: usize = 0;
    while i < k
        invariant
            0 <= i <= k <= MAX_FRAC_DIGITS,
            p as int == spec_pow10(i as nat),
        decreases k - i,
    {
        proof {
            lemma_pow10_mono((i + 1) as nat, MAX_FRAC_DIGITS as nat);
            lemma_pow10_concrete();
            assert(spec_pow10((i + 1) as nat) == 10 * spec_pow10(i as nat));
        }
        p = p * 10;
        i = i + 1;
    }
    proof {
        lemma_pow10_pos(k as nat);
        lemma_pow10_mono(k as nat, MAX_FRAC_DIGITS as nat);
        lemma_pow10_concrete();
    }
    p
}


/// Parses one world-file line. Accepts exactly what
/// [`spec_parse_frac_line`] accepts and returns exactly the value it
/// denotes.
pub fn parse_frac_line(s: &[u8]) -> (r: Option<Frac>)
    ensures
        r is Some <==> spec_parse_frac_line(s@) is Some,
        r matches Some(f) ==> spec_parse_frac_line(s@) matches Some(v) && f@ == v && f.wf(),
{
    let n: usize = s.len();
    let neg: bool = n > 0 && s[0] == 45;
    let start: usize = if neg { 1 } else { 0 };
    let ghost body: Seq<u8> = if neg { s@.drop_first() } else { s@ };
    proof {
        assert(body =~= s@.subrange(start as int, n as int));
        assert(forall|t: int| 0 <= t < body.len() ==> body[t] == s@[t + start]);
    }

    // The run of integer digits.
    let mut j: usize = start;
    while j < n && byte_is_digit(s[j])
        invariant
            start <= j <= n <= s@.len(),
            n == s@.len(),
            forall|t: int| start <= t < j ==> spec_is_digit(#[trigger] s@[t]),
        decreases n - j,
    {
        j = j + 1;
    }

    if j == start {
        // No integer digits at all: nothing acceptable starts this way.
        proof {
            body.index_of_first_ensures(46u8);
            match body.index_of_first(46u8) {
                Some(i) => {
                    if i == 0 {
                    } else {
                        assert(body[0] != 46);
                        assert(!spec_is_digit(body[0]));
                        assert(!spec_all_digits(body.subrange(0, i))) by {
                            assert(body.subrange(0, i)[0] == body[0]);
                        }
                    }
                },
                None => {
                    if body.len() > 0 {
                        assert(body[0] == s@[start as int]);
                        assert(!spec_is_digit(body[0]));
                    }
                },
            }
        }
        return None;
    }

    let int_len: usize = j - start;

    if j == n {
        // Digits up to the end of the line: an integer.
        proof {
            assert(spec_all_digits(body));
            body.index_of_first_ensures(46u8);
            match body.index_of_first(46u8) {
                Some(i) => {
                    assert(spec_is_digit(body[i]));
                    assert(false);
                },
                None => {},
            }
        }
        if int_len > MAX_INT_DIGITS {
            return None;
        }
        proof {
            assert(body =~= s@.subrange(start as int, j as int));
        }
        let acc: u128 = digits_value(s, start, j);
        let num: i128 = if neg { -(acc as i128) } else { acc as i128 };
        proof {
            lemma_digits_val_bound(body);
        }
        return Some(Frac { num, den: 1 });
    }

    if s[j] != 46 {
        // The digit run stops at a byte that is neither a digit nor the
        // decimal point: nothing acceptable contains it.
        proof {
            let jb = j - start;
            body.index_of_first_ensures(46u8);
            match body.index_of_first(46u8) {
                Some(i) => {
                    if i <= jb {
                        assert(body[i] == 46);
                        assert(i < jb ==> spec_is_digit(body[i]));
                        assert(i == jb ==> body[jb] == s@[j as int]);
                        assert(false);
                    } else {
                        assert(!spec_all_digits(body.subrange(0, i))) by {
                            assert(body.subrange(0, i)[jb] == body[jb]);
                            assert(body[jb] == s@[j as int]);
                        }
                    }
                },
                None => {
                    assert(!spec_all_digits(body)) by {
                        assert(body[j - start] == s@[j as int]);
                    }
                },
            }
        }
        return None;
    }

    // The dot is the first one in the line: everything before it is a digit.
    proof {
        let jb = j - start;
        assert(body[jb] == s@[j as int]);
        lemma_index_of_first_is(body, 46u8, jb);
    }

    // The run of fractional digits; it must reach the end of the line.
    let fstart: usize = j + 1;
    let mut m: usize = fstart;
    while m < n && byte_is_digit(s[m])
        invariant
            fstart <= m <= n <= s@.len(),
            n == s@.len(),
            forall|t: int| fstart <= t < m ==> spec_is_digit(#[trigger] s@[t]),
        decreases n - m,
    {
        m = m + 1;
    }

    let ghost jb = j - start;
    let ghost ip = body.subrange(0, jb as int);
    let ghost fp = body.subrange(jb + 1, body.len() as int);
    proof {
        assert(ip =~= s@.subrange(start as int, j as int));
        assert(fp =~= s@.subrange(fstart as int, n as int));
        assert(spec_all_digits(ip));
    }

    if m < n {
        // A byte after the dot is not a digit.
        proof {
            assert(!spec_all_digits(fp)) by {
                assert(fp[m - fstart] == s@[m as int]);
            }
        }
        return None;
    }

    proof {
        assert(spec_all_digits(fp));
    }
    let frac_len: usize = m - fstart;
    if frac_len == 0 || frac_len > MAX_FRAC_DIGITS || int_len > MAX_INT_DIGITS {
        return None;
    }

    let int_acc: u128 = digits_value(s, start, j);
    let frac_acc: u128 = digits_value(s, fstart, m);
    let p: u128 = pow10_u128(frac_len);
    proof {
        lemma_digits_val_bound(ip);
        lemma_digits_val_bound(fp);
        lemma_pow10_concrete();
        assert(int_acc * p <= 100000000000000000000 * 1000000000000000000) by (nonlinear_arith)
            requires
                0 <= int_acc <= 100000000000000000000,
                0 <= p <= 1000000000000000000,
        ;
    }
    let mag: u128 = int_acc * p + frac_acc;
    let num: i128 = if neg { -(mag as i128) } else { mag as i128 };
    Some(Frac { num, den: p as i128 })
}


/// The full text of a world file for the given slot values: each value
/// rendered as a plain decimal on a line of its own, newline-terminated.
pub open spec fn spec_world_file_bytes(vs: Seq<FracV>) -> Seq<u8>
    decreases vs.len(),
{
    if vs.len() == 0 {
        Seq::empty()
    } else {
        spec_format_frac(vs.first()) + seq![10u8] + spec_world_file_bytes(vs.drop_first())
    }
}

/// The meaning of a whole world file: exactly `k` newline-terminated
/// lines, each an acceptable decimal number.
pub open spec fn spec_parse_lines(s: Seq<u8>, k: nat) -> Option<Seq<FracV>>
    decreases k,
{
    if k == 0 {
        if s.len() == 0 {
            Some(Seq::empty())
        } else {
            None
        }
    } else {
        match s.index_of_first(10u8) {
            None => None,
            Some(i) => {
                match spec_parse_frac_line(s.subrange(0, i)) {
                    None => None,
                    Some(v) => {
                        match spec_parse_lines(s.subrange(i + 1, s.len() as int), (k - 1) as nat) {
                            None => None,
                            Some(vs) => Some(seq![v] + vs),
                        }
                    },
                }
            },
        }
    }
}

/// The meaning of a world file: exactly six newline-terminated lines.
pub open spec fn spec_parse_world_file(s: Seq<u8>) -> Option<Seq<FracV>> {
    spec_parse_lines(s, 6)
}

/// Renders the world file for the given slot values: one plain decimal
/// per line, newline-terminated, in the order given.
pub fn world_file_contents(values: &Vec<Frac>) -> (r: Vec<u8>)
    requires
        forall|i: int|
            0 <= i < values@.len() ==> (#[trigger] values@[i]).wf() && values@[i].num > i128::MIN
                && values@[i].den <= MAX_FORMAT_DEN,
    ensures
        r@ == spec_world_file_bytes(values@.map_values(|f: Frac| f@)),
{
    let ghost vals = values@.map_values(|f: Frac| f@);
    let mut out: Vec<u8> = Vec::new();
    let n: usize = values.len();
    proof {
        assert(vals.subrange(0, n as int) =~= vals);
        assert(Seq::<u8>::empty() + spec_world_file_bytes(vals) =~= spec_world_file_bytes(vals));
    }
    let mut i: usize = 0;
    while i < n
        invariant
            0 <= i <= n,
            n == values@.len(),
            vals == values@.map_values(|f: Frac| f@),
            forall|t: int|
                0 <= t < values@.len() ==> (#[trigger] values@[t]).wf() && values@[t].num
                    > i128::MIN && values@[t].den <= MAX_FORMAT_DEN,
            out@ + spec_world_file_bytes(vals.subrange(i as int, n as int))
                == spec_world_file_bytes(vals),
        decreases n - i,
    {
        let mut line: Vec<u8> = format_frac(&values[i]);
        let ghost out_before = out@;
        out.append(&mut line);
        out.push(10);
        proof {
            let rest = vals.subrange(i as int, n as int);
            assert(rest.first() == vals[i as int]);
            assert(vals[i as int] == values@[i as int]@);
            assert(rest.drop_first() =~= vals.subrange(i + 1, n as int));
            assert(spec_world_file_bytes(rest) == spec_format_frac(vals[i as int]) + seq![10u8]
                + spec_world_file_bytes(vals.subrange(i + 1, n as int)));
            assert(out@ =~= out_before + spec_format_frac(vals[i as int]) + seq![10u8]);
            assert(out@ + spec_world_file_bytes(vals.subrange(i + 1, n as int))
                =~= spec_world_file_bytes(vals));
        }
        i = i + 1;
    }
    proof {
        assert(spec_world_file_bytes(vals.subrange(n as int, n as int)) == Seq::<u8>::empty()) by {
            assert(vals.subrange(n as int, n as int).len() == 0);
        }
        assert(out@ =~= out@ + Seq::<u8>::empty());
    }
    out
}

/// The position of the first occurrence of `x`, if any.
fn find_byte(s: &[u8], x: u8) -> (r: Option<usize>)
    ensures
        r matches Some(i) ==> s@.index_of_first(x) == Some(i as int) && i < s@.len(),
        r is None ==> s@.index_of_first(x) is None,
{
    let n: usize = s.len();
    let mut i: usize = 0;
    while i < n
        invariant
            0 <= i <= n,
            n == s@.len(),
            forall|j: int| 0 <= j < i ==> s@[j] != x,
        decreases n - i,
    {
        if s[i] == x {
            proof {
                lemma_index_of_first_is(s@, x, i as int);
            }
            return Some(i);
        }
        i = i + 1;
    }
    proof {
        s@.index_of_first_ensures(x);
        match s@.index_of_first(x) {
            Some(k) => {
                assert(s@[k] != x);
                assert(false);
            },
            None => {},
        }
    }
    None
}

/// Parses a whole world file: exactly six newline-terminated decimal
/// lines, in slot order. Accepts exactly what [`spec_parse_world_file`]
/// accepts and returns exactly the values it denotes.
pub fn parse_world_file(s: &[u8]) -> (r: Option<Vec<Frac>>)
    ensures
        r is Some <==> spec_parse_world_file(s@) is Some,
        r matches Some(v) ==> spec_parse_world_file(s@) matches Some(vs) && v@.len() == 6
            && vs.len() == 6 && forall|i: int|
            0 <= i < 6 ==> (#[trigger] v@[i])@ == vs[i] && v@[i].wf(),
{
    let n: usize = s.len();
    let mut out: Vec<Frac> = Vec::new();
    let mut pos: usize = 0;
    let mut t: usize = 0;
    proof {
        assert(s@.subrange(0, n as int) =~= s@);
        assert(out@.map_values(|f: Frac| f@) =~= Seq::<FracV>::empty());
    }
    while t < 6
        invariant
            0 <= t <= 6,
            pos <= n,
            n == s@.len(),
            out@.len() == t,
            forall|q: int| 0 <= q < t ==> (#[trigger] out@[q]).wf(),
            ({
                let rem = spec_parse_lines(s@.subrange(pos as int, n as int), (6 - t) as nat);
                &&& rem is Some ==> (spec_parse_world_file(s@) matches Some(all) && all
                    == out@.map_values(|f: Frac| f@) + rem->Some_0)
                &&& rem is None ==> spec_parse_world_file(s@) is None
            }),
        decreases 6 - t,
    {
        let rest: &[u8] = &s[pos..n];
        let ghost restv = s@.subrange(pos as int, n as int);
        match find_byte(rest, 10) {
            None => {
                proof {
                    assert(spec_parse_lines(restv, (6 - t) as nat) is None);
                }
                return None;
            },
            Some(i) => {
                let line: &[u8] = &rest[0..i];
                proof {
                    assert(line@ =~= restv.subrange(0, i as int));
                }
                match parse_frac_line(line) {
                    None => {
                        proof {
                            assert(spec_parse_lines(restv, (6 - t) as nat) is None);
                        }
                        return None;
                    },
                    Some(f) => {
                        let ghost out_before = out@;
                        out.push(f);
                        pos = pos + i + 1;
                        t = t + 1;
                        proof {
                            let rem_new = spec_parse_lines(
                                s@.subrange(pos as int, n as int),
                                (6 - t) as nat,
                            );
                            assert(restv.subrange(i + 1, restv.len() as int) =~= s@.subrange(
                                pos as int,
                                n as int,
                            ));
                            assert(spec_parse_lines(restv, (7 - t) as nat) matches Some(vs1)
                                ==> rem_new matches Some(vs2) && vs1 == seq![f@] + vs2);
                            assert(out@.map_values(|g: Frac| g@) =~= out_before.map_values(
                                |g: Frac| g@,
                            ) + seq![f@]);
                            if rem_new is Some {
                                assert(out_before.map_values(|g: Frac| g@) + (seq![f@]
                                    + rem_new->Some_0) =~= out@.map_values(|g: Frac| g@)
                                    + rem_new->Some_0);
                            }
                        }
                    },
                }
            },
        }
    }
    proof {
        let rem = spec_parse_lines(s@.subrange(pos as int, n as int), 0);
        if pos == n {
            assert(s@.subrange(pos as int, n as int).len() == 0);
            assert(rem == Some(Seq::<FracV>::empty()));
        }
    }
    if pos != n {
        proof {
            assert(s@.subrange(pos as int, n as int).len() > 0);
            assert(spec_parse_lines(s@.subrange(pos as int, n as int), 0) is None);
        }
        return None;
    }
    proof {
        let all = spec_parse_world_file(s@)->Some_0;
        assert(out@.map_values(|f: Frac| f@) + Seq::<FracV>::empty() =~= out@.map_values(
            |f: Frac| f@,
        ));
        assert(forall|i: int|
            0 <= i < 6 ==> (#[trigger] out@[i])@ == out@.map_values(|f: Frac| f@)[i]);
    }
    Some(out)
}


/// The leftover remainder is just modular arithmetic: after `k` rendered
/// digits it is `rem * 10^k` modulo the denominator. In particular the
/// expansion of `rem / den` terminates within `k` digits exactly when
/// `den` divides `rem * 10^k`.
pub proof fn lemma_frac_rem_is_mod(rem: int, den: int, k: nat)
    requires
        0 < den,
        0 <= rem < den,
    ensures
        spec_frac_rem(rem, den, k) == (rem * spec_pow10(k)) % den,
    decreases k,
{
    if k == 0 {
        lemma_small_mod(rem as nat, den as nat);
    } else if rem == 0 {
        lemma_pow10_pos(k);
        assert(rem * spec_pow10(k) == 0) by (nonlinear_arith)
            requires
                rem == 0,
        ;
        lemma_small_mod(0, den as nat);
    } else {
        let rem1 = (rem * 10) % den;
        let p1 = spec_pow10((k - 1) as nat);
        assert(0 <= rem * 10) by (nonlinear_arith)
            requires
                0 <= rem,
        ;
        lemma_mod_bound(rem * 10, den);
        lemma_frac_rem_is_mod(rem1, den, (k - 1) as nat);
        lemma_mul_mod_noop_left(rem * 10, p1, den);
        assert((rem * 10) * p1 == rem * spec_pow10(k)) by (nonlinear_arith)
            requires
                spec_pow10(k) == 10 * p1,
        ;
    }
}

/// The value renders exactly: its integer part stays within the parser's
/// digit cap and its fractional expansion terminates within the rendered
/// digits. Such a value survives the render/parse round trip unchanged;
/// one whose expansion is longer is truncated by the renderer instead.
pub open spec fn spec_renders_exactly(v: FracV) -> bool {
    &&& v.wf()
    &&& (abs(v.num) as int) / v.den < spec_pow10(MAX_INT_DIGITS as nat)
    &&& spec_frac_rem((abs(v.num) as int) % v.den, v.den, MAX_FRAC_DIGITS as nat) == 0
}

/// A rendered number contains no newline byte, so line splitting can never
/// cut one apart.
pub proof fn lemma_format_frac_no_newline(v: FracV)
    requires
        v.wf(),
    ensures
        forall|i: int| 0 <= i < spec_format_frac(v).len() ==> spec_format_frac(v)[i] != 10,
{
    let m = abs(v.num) as int;
    let q = m / v.den;
    let rem = m % v.den;
    lemma_mod_bound(m, v.den);
    lemma_div_pos_is_pos(m, v.den);
    lemma_digits_roundtrip(q);
    lemma_frac_digits(rem, v.den, MAX_FRAC_DIGITS as nat);
    let o = spec_format_frac(v);
    let dq = spec_digits(q);
    let fd = spec_frac_digits(rem, v.den, MAX_FRAC_DIGITS as nat);
    let sign: Seq<u8> = if v.num < 0 {
        seq![45u8]
    } else {
        Seq::empty()
    };
    let frac: Seq<u8> = if rem == 0 {
        Seq::empty()
    } else {
        seq![46u8] + fd
    };
    assert(o == sign + dq + frac);
    assert forall|i: int| 0 <= i < o.len() implies o[i] != 10 by {
        if i < sign.len() {
            assert(o[i] == 45);
        } else if i < sign.len() + dq.len() {
            assert(o[i] == dq[i - sign.len()]);
            assert(spec_is_digit(dq[i - sign.len()]));
        } else {
            let j = i - sign.len() - dq.len();
            assert(o[i] == frac[j]);
            if j == 0 {
                assert(frac[0] == 46);
            } else {
                assert(frac[j] == fd[j - 1]);
                assert(spec_is_digit(fd[j - 1]));
            }
        }
    }
}

/// The render/parse round trip for one value: parsing the rendered line
/// gives back a fraction that denotes exactly the same number.
pub proof fn lemma_format_parse_round_trip(v: FracV)
    requires
        spec_renders_exactly(v),
    ensures
        spec_parse_frac_line(spec_format_frac(v)) matches Some(u) && u.wf() && u.eqv(v),
{
    let m = abs(v.num) as int;
    let den = v.den;
    let q = m / den;
    let rem = m % den;
    lemma_mod_bound(m, den);
    lemma_div_pos_is_pos(m, den);
    lemma_fundamental_div_mod(m, den);
    lemma_digits_roundtrip(q);
    lemma_digits_len(q, MAX_INT_DIGITS as nat);
    let dq = spec_digits(q);
    let o = spec_format_frac(v);
    if rem == 0 {
        if v.num < 0 {
            assert(o =~= seq![45u8] + dq);
            assert(o[0] == 45);
            assert(o.drop_first() =~= dq);
            let body = dq;
            body.index_of_first_ensures(46u8);
            match body.index_of_first(46u8) {
                Some(i) => {
                    assert(spec_is_digit(body[i]));
                    assert(false);
                },
                None => {},
            }
            let u = spec_parse_frac_line(o)->Some_0;
            assert(u == FracV { num: -q, den: 1 });
            assert(-q * den == v.num * 1) by (nonlinear_arith)
                requires
                    m == den * q + rem,
                    rem == 0,
                    m == -v.num,
            ;
        } else {
            assert(o =~= dq);
            assert(o.len() > 0 && spec_is_digit(o[0]));
            assert(o[0] != 45);
            let body = o;
            body.index_of_first_ensures(46u8);
            match body.index_of_first(46u8) {
                Some(i) => {
                    assert(spec_is_digit(body[i]));
                    assert(false);
                },
                None => {},
            }
            let u = spec_parse_frac_line(o)->Some_0;
            assert(u == FracV { num: q, den: 1 });
            assert(q * den == v.num * 1) by (nonlinear_arith)
                requires
                    m == den * q + rem,
                    rem == 0,
                    m == v.num,
            ;
        }
    } else {
        lemma_frac_digits(rem, den, MAX_FRAC_DIGITS as nat);
        let fd = spec_frac_digits(rem, den, MAX_FRAC_DIGITS as nat);
        let flen = fd.len();
        let p = spec_pow10(flen);
        let vf = spec_digits_val(fd);
        lemma_pow10_pos(flen);
        assert(rem * p == vf * den) by {
            assert(spec_frac_rem(rem, den, MAX_FRAC_DIGITS as nat) == 0);
        }
        if v.num < 0 {
            assert(o =~= seq![45u8] + (dq + (seq![46u8] + fd)));
            assert(o[0] == 45);
            let body = o.drop_first();
            assert(body =~= dq + (seq![46u8] + fd));
            let jb = dq.len() as int;
            assert(body[jb] == 46);
            assert(forall|t: int| 0 <= t < jb ==> body[t] == dq[t]);
            lemma_index_of_first_is(body, 46u8, jb);
            assert(body.subrange(0, jb) =~= dq);
            assert(body.subrange(jb + 1, body.len() as int) =~= fd);
            let mag = q * p + vf;
            let u = spec_parse_frac_line(o)->Some_0;
            assert(u == FracV { num: -mag, den: p });
            assert(-mag * den == v.num * p) by (nonlinear_arith)
                requires
                    mag == q * p + vf,
                    m == den * q + rem,
                    rem * p == vf * den,
                    m == -v.num,
            ;
        } else {
            assert(o =~= dq + (seq![46u8] + fd));
            assert(o.len() > 0 && spec_is_digit(o[0]));
            assert(o[0] != 45);
            let body = o;
            let jb = dq.len() as int;
            assert(body[jb] == 46);
            assert(forall|t: int| 0 <= t < jb ==> body[t] == dq[t]);
            lemma_index_of_first_is(body, 46u8, jb);
            assert(body.subrange(0, jb) =~= dq);
            assert(body.subrange(jb + 1, body.len() as int) =~= fd);
            let mag = q * p + vf;
            let u = spec_parse_frac_line(o)->Some_0;
            assert(u == FracV { num: mag, den: p });
            assert(mag * den == v.num * p) by (nonlinear_arith)
                requires
                    mag == q * p + vf,
                    m == den * q + rem,
                    rem * p == vf * den,
                    m == v.num,
            ;
        }
    }
}

/// The round trip for a run of rendered lines, one value each.
pub proof fn lemma_lines_round_trip(vs: Seq<FracV>)
    requires
        forall|i: int| 0 <= i < vs.len() ==> spec_renders_exactly(#[trigger] vs[i]),
    ensures
        spec_parse_lines(spec_world_file_bytes(vs), vs.len()) matches Some(us) && us.len()
            == vs.len() && forall|i: int|
            0 <= i < vs.len() ==> (#[trigger] us[i]).wf() && us[i].eqv(vs[i]),
    decreases vs.len(),
{
    if vs.len() == 0 {
        assert(spec_world_file_bytes(vs).len() == 0);
    } else {
        let v0 = vs.first();
        assert(spec_renders_exactly(v0));
        let line = spec_format_frac(v0);
        let rest_bytes = spec_world_file_bytes(vs.drop_first());
        let o = spec_world_file_bytes(vs);
        assert(o == line + seq![10u8] + rest_bytes);
        lemma_format_frac_no_newline(v0);
        let ll = line.len() as int;
        assert(o[ll] == 10);
        assert(forall|t: int| 0 <= t < ll ==> o[t] == line[t]);
        lemma_index_of_first_is(o, 10u8, ll);
        assert(o.subrange(0, ll) =~= line);
        assert(o.subrange(ll + 1, o.len() as int) =~= rest_bytes);
        lemma_format_parse_round_trip(v0);
        assert(forall|i: int|
            0 <= i < vs.drop_first().len() ==> spec_renders_exactly(
                #[trigger] vs.drop_first()[i],
            )) by {
            assert(forall|i: int|
                0 <= i < vs.drop_first().len() ==> vs.drop_first()[i] == vs[i + 1]);
        }
        lemma_lines_round_trip(vs.drop_first());
        let u0 = spec_parse_frac_line(line)->Some_0;
        let us_rest = spec_parse_lines(rest_bytes, vs.drop_first().len())->Some_0;
        let us = spec_parse_lines(o, vs.len())->Some_0;
        assert(us == seq![u0] + us_rest);
        assert(forall|i: int|
            0 <= i < vs.len() ==> (#[trigger] us[i]).wf() && us[i].eqv(vs[i])) by {
            assert(us[0] == u0);
            assert(forall|i: int| 1 <= i < vs.len() ==> us[i] == us_rest[i - 1]);
            assert(forall|i: int| 1 <= i < vs.len() ==> vs[i] == vs.drop_first()[i - 1]);
        }
    }
}

/// The world-file round trip: parsing a rendered world file of six
/// exactly-rendering values gives six fractions that denote the same six
/// numbers, in the same order.
pub proof fn lemma_world_file_round_trip(vs: Seq<FracV>)
    requires
        vs.len() == 6,
        forall|i: int| 0 <= i < 6 ==> spec_renders_exactly(#[trigger] vs[i]),
    ensures
        spec_parse_world_file(spec_world_file_bytes(vs)) matches Some(us) && us.len() == 6
            && forall|i: int| 0 <= i < 6 ==> (#[trigger] us[i]).wf() && us[i].eqv(vs[i]),
{
    lemma_lines_round_trip(vs);
}

} // verus!
