//! Wavefront OBJ / MTL text: tokenizing, number parsing, and the
//! line-by-line document fold.
//!
//! Lines arrive as plain byte strings (whoever reads the file hands them
//! over); everything from whitespace splitting to fixed-point decimal
//! parsing to face assembly is specified by mirrors over byte sequences
//! and verified.

use vstd::prelude::*;

use crate::color::Rgb;
use crate::fixed::{SCALE, COORD_LIMIT};
use crate::types::Point3;

verus! {

/// ASCII whitespace the tokenizer splits on.
pub open spec fn is_space(b: u8) -> bool {
    b == 32 || b == 9 || b == 13
}

/// ASCII decimal digit.
pub open spec fn is_digit(b: u8) -> bool {
    48 <= b <= 57
}

/// The value of a digit string, most significant first.
pub open spec fn digits_value(s: Seq<u8>) -> int
    decreases s.len(),
{
    if s.len() == 0 {
        0
    } else {
        digits_value(s.drop_last()) * 10 + (s.last() - 48)
    }
}

/// Every byte is a digit.
pub open spec fn all_digits(s: Seq<u8>) -> bool {
    forall|i: int| 0 <= i < s.len() ==> is_digit(#[trigger] s[i])
}

/// Index of the first byte satisfying "space", or the length.
pub open spec fn scan_until_space(s: Seq<u8>) -> int
    decreases s.len(),
{
    if s.len() == 0 {
        0
    } else if is_space(s[0]) {
        0
    } else {
        1 + scan_until_space(s.drop_first())
    }
}

/// Index of the first occurrence of `b`, or the length.
pub open spec fn scan_until(s: Seq<u8>, b: u8) -> int
    decreases s.len(),
{
    if s.len() == 0 {
        0
    } else if s[0] == b {
        0
    } else {
        1 + scan_until(s.drop_first(), b)
    }
}

pub proof fn lemma_scan_until_space_bounds(s: Seq<u8>)
    ensures
        0 <= scan_until_space(s) <= s.len(),
        forall|j: int| 0 <= j < scan_until_space(s) ==> !is_space(#[trigger] s[j]),
        scan_until_space(s) < s.len() ==> is_space(s[scan_until_space(s)]),
    decreases s.len(),
{
    if s.len() != 0 && !is_space(s[0]) {
        let t = s.drop_first();
        lemma_scan_until_space_bounds(t);
        assert forall|j: int| 0 <= j < scan_until_space(s) implies !is_space(#[trigger] s[j]) by {
            if j > 0 {
                assert(s[j] == t[j - 1]);
            }
        }
        if scan_until_space(s) < s.len() {
            assert(s[scan_until_space(s)] == t[scan_until_space(t)]);
        }
    }
}

pub proof fn lemma_scan_until_bounds(s: Seq<u8>, b: u8)
    ensures
        0 <= scan_until(s, b) <= s.len(),
        forall|j: int| 0 <= j < scan_until(s, b) ==> #[trigger] s[j] != b,
        scan_until(s, b) < s.len() ==> s[scan_until(s, b)] == b,
    decreases s.len(),
{
    if s.len() != 0 && s[0] != b {
        let t = s.drop_first();
        lemma_scan_until_bounds(t, b);
        assert forall|j: int| 0 <= j < scan_until(s, b) implies #[trigger] s[j] != b by {
            if j > 0 {
                assert(s[j] == t[j - 1]);
            }
        }
        if scan_until(s, b) < s.len() {
            assert(s[scan_until(s, b)] == t[scan_until(t, b)]);
        }
    }
}

/// Executable scan for the first space, matching `scan_until_space`.
fn find_space(s: &[u8]) -> (r: usize)
    ensures
        r == scan_until_space(s@),
{
    proof {
        lemma_scan_until_space_bounds(s@);
    }
    let mut i: usize = 0;
    while i < s.len()
        invariant
            0 <= i <= s@.len(),
            forall|j: int| 0 <= j < i ==> !is_space(#[trigger] s@[j]),
            0 <= scan_until_space(s@) <= s@.len(),
            forall|j: int| 0 <= j < scan_until_space(s@) ==> !is_space(#[trigger] s@[j]),
            scan_until_space(s@) < s@.len() ==> is_space(s@[scan_until_space(s@)]),
            i <= scan_until_space(s@),
        decreases s@.len() - i,
    {
        let b = s[i];
        if b == 32 || b == 9 || b == 13 {
            proof {
                if i < scan_until_space(s@) {
                    assert(!is_space(s@[i as int]));
                }
            }
            return i;
        }
        proof {
            if scan_until_space(s@) == i {
                assert(is_space(s@[i as int]));
            }
        }
        i = i + 1;
    }
    i
}

/// Executable scan for the first occurrence of `b`, matching `scan_until`.
fn find_byte(s: &[u8], b: u8) -> (r: usize)
    ensures
        r == scan_until(s@, b),
{
    proof {
        lemma_scan_until_bounds(s@, b);
    }
    let mut i: usize = 0;
    while i < s.len()
        invariant
            0 <= i <= s@.len(),
            forall|j: int| 0 <= j < i ==> #[trigger] s@[j] != b,
            0 <= scan_until(s@, b) <= s@.len(),
            forall|j: int| 0 <= j < scan_until(s@, b) ==> #[trigger] s@[j] != b,
            scan_until(s@, b) < s@.len() ==> s@[scan_until(s@, b)] == b,
            i <= scan_until(s@, b),
        decreases s@.len() - i,
    {
        if s[i] == b {
            return i;
        }
        i = i + 1;
    }
    i
}

/// Parse an unsigned digit string into its value, refusing empty or
/// non-digit text and values beyond the cap.
pub open spec fn parse_digits_spec(s: Seq<u8>) -> Option<int> {
    if s.len() >= 1 && all_digits(s) && digits_value(s) <= 0x7fff_ffff {
        Some(digits_value(s))
    } else {
        None
    }
}

/// A digit string's value only grows as digits are appended.
proof fn lemma_digits_prefix(s: Seq<u8>, k: int)
    requires
        0 <= k <= s.len(),
        all_digits(s),
    ensures
        digits_value(s.take(k)) <= digits_value(s),
        digits_value(s) >= 0,
    decreases s.len(),
{
    if s.len() == 0 {
    } else {
        assert(is_digit(s[s.len() - 1]));
        lemma_digits_prefix(s.drop_last(), if k <= s.len() - 1 {
            k
        } else {
            s.len() - 1
        });
        if k <= s.len() - 1 {
            assert(s.take(k) =~= s.drop_last().take(k));
        } else {
            assert(s.take(k) =~= s);
        }
    }
}

/// Executable digit-string parse, matching `parse_digits_spec`.
fn parse_digits(s: &[u8]) -> (r: Option<i64>)
    ensures
        match r {
            Some(v) => parse_digits_spec(s@) == Some(v as int),
            None => parse_digits_spec(s@) is None,
        },
{
    if s.len() == 0 {
        return None;
    }
    let mut acc: i64 = 0;
    let mut i: usize = 0;
    while i < s.len()
        invariant
            0 <= i <= s@.len(),
            s@.len() >= 1,
            all_digits(s@.take(i as int)),
            acc == digits_value(s@.take(i as int)),
            0 <= acc <= 0x7fff_ffff,
        decreases s@.len() - i,
    {
        let b = s[i];
        if !(48 <= b && b <= 57) {
            proof {
                assert(!is_digit(s@[i as int]));
            }
            return None;
        }
        let d = (b - 48) as i64;
        let next = acc * 10 + d;
        proof {
            assert(s@.take(i + 1).drop_last() =~= s@.take(i as int));
            assert(s@.take(i + 1).last() == s@[i as int]);
        }
        if next > 0x7fff_ffff {
            proof {
                if all_digits(s@) {
                    lemma_digits_prefix(s@, i + 1);
                    assert(digits_value(s@) >= digits_value(s@.take(i + 1)));
                }
            }
            return None;
        }
        acc = next;
        i = i + 1;
    }
    proof {
        assert(s@.take(i as int) =~= s@);
    }
    Some(acc)
}

/// Powers of ten, for fractional scaling.
pub open spec fn pow10(n: nat) -> int
    decreases n,
{
    if n == 0 {
        1
    } else {
        10 * pow10((n - 1) as nat)
    }
}

/// The fixed-point value of an unsigned decimal mantissa: digits with at
/// most one point, at least one digit present, the integer part capped
/// and at most nine fractional digits read; the fraction truncates toward
/// zero.
pub open spec fn mantissa_spec(t: Seq<u8>) -> Option<int> {
    let dot = scan_until(t, 46);
    let ip = t.take(dot);
    let fp = if dot < t.len() {
        t.skip(dot + 1)
    } else {
        Seq::empty()
    };
    if t.len() == 0 {
        None
    } else if ip.len() == 0 && fp.len() == 0 {
        None
    } else if !all_digits(ip) || !all_digits(fp) {
        None
    } else if digits_value(ip) > 0x7fff_ffff || fp.len() > 9 {
        None
    } else {
        Some(digits_value(ip) * SCALE + digits_value(fp) * SCALE / pow10(fp.len()))
    }
}

/// A decimal exponent: an optional sign and digits, refused beyond
/// eighteen (where any result would leave the representable range
/// anyway).
pub open spec fn exponent_spec(t: Seq<u8>) -> Option<int> {
    let esigned = t.len() >= 1 && (t[0] == 45 || t[0] == 43);
    let en = t.len() >= 1 && t[0] == 45;
    let d = if esigned {
        t.drop_first()
    } else {
        t
    };
    if d.len() >= 1 && all_digits(d) && digits_value(d) <= 18 {
        if en {
            Some(-digits_value(d))
        } else {
            Some(digits_value(d))
        }
    } else {
        None
    }
}

/// The fixed-point value of a signed decimal numeral with an optional
/// `e`/`E` exponent: the signed mantissa scaled by the power of ten, the
/// fraction and any downscaling truncating toward zero, refused when the
/// magnitude leaves the representable range.
pub open spec fn parse_arg_spec(s: Seq<u8>) -> Option<i64> {
    let signed = s.len() >= 1 && (s[0] == 45 || s[0] == 43);
    let neg = s.len() >= 1 && s[0] == 45;
    let t = if signed {
        s.drop_first()
    } else {
        s
    };
    let e1 = scan_until(t, 101);
    let e2 = scan_until(t, 69);
    let eidx = if e1 <= e2 {
        e1
    } else {
        e2
    };
    match mantissa_spec(t.take(eidx)) {
        None => None,
        Some(v) => {
            let scaled = if eidx >= t.len() {
                Some(v)
            } else {
                match exponent_spec(t.skip(eidx + 1)) {
                    None => None,
                    Some(e) => Some(
                        if e >= 0 {
                            v * pow10(e as nat)
                        } else {
                            v / pow10((-e) as nat)
                        },
                    ),
                }
            };
            match scaled {
                None => None,
                Some(w) => if w > 0x7fff_ffff * SCALE {
                    None
                } else if neg {
                    Some((-w) as i64)
                } else {
                    Some(w as i64)
                },
            }
        },
    }
}

/// Powers of ten are positive./// Powers of ten are positive.
pub proof fn lemma_pow10_pos(n: nat)
    ensures
        pow10(n) >= 1,
    decreases n,
{
    if n > 0 {
        lemma_pow10_pos((n - 1) as nat);
    }
}

/// A digit string's value stays below ten to its length.
pub proof fn lemma_digits_len_bound(s: Seq<u8>)
    requires
        all_digits(s),
    ensures
        0 <= digits_value(s) < pow10(s.len()),
    decreases s.len(),
{
    if s.len() == 0 {
    } else {
        assert(is_digit(s.last()));
        assert(all_digits(s.drop_last())) by {
            assert(forall|i: int|
                0 <= i < s.drop_last().len() ==> #[trigger] s.drop_last()[i] == s[i]);
        }
        lemma_digits_len_bound(s.drop_last());
        lemma_pow10_pos((s.len() - 1) as nat);
        assert(digits_value(s.drop_last()) * 10 + (s.last() - 48) < pow10((s.len() - 1) as nat)
            * 10) by (nonlinear_arith)
            requires
                digits_value(s.drop_last()) <= pow10((s.len() - 1) as nat) - 1,
                s.last() - 48 <= 9,
                digits_value(s.drop_last()) >= 0,
        ;
        assert(digits_value(s.drop_last()) * 10 >= 0) by (nonlinear_arith)
            requires
                digits_value(s.drop_last()) >= 0,
        ;
    }
}

/// Executable power of ten.
fn pow10_exec(n: usize) -> (r: i64)
    requires
        n <= 18,
    ensures
        r == pow10(n as nat),
        1 <= r <= 1000_000_000_000_000_000,
    decreases n,
{
    if n == 0 {
        1
    } else {
        let q = pow10_exec(n - 1);
        proof {
            lemma_pow10_le_17((n - 1) as nat);
        }
        10 * q
    }
}

/// Powers of ten are monotone in the exponent.
proof fn lemma_pow10_mono(a: nat, b: nat)
    requires
        a <= b,
    ensures
        pow10(a) <= pow10(b),
    decreases b,
{
    if a < b {
        lemma_pow10_mono(a, (b - 1) as nat);
        lemma_pow10_pos((b - 1) as nat);
    }
}

/// Up to seventeen, a power of ten stays at or below ten to the
/// seventeenth.
proof fn lemma_pow10_le_17(n: nat)
    requires
        n <= 17,
    ensures
        pow10(n) <= 100_000_000_000_000_000,
{
    lemma_pow10_mono(n, 17);
    assert(pow10(17) == 100_000_000_000_000_000) by {
        reveal_with_fuel(pow10, 19);
    }
}

/// Parse one numeral into a fixed-point scalar, matching
/// `parse_arg_spec`: an optional sign, a decimal mantissa, and an
/// optional `e`/`E` exponent.
pub fn parse_arg(s: &[u8]) -> (r: Option<i64>)
    ensures
        r == parse_arg_spec(s@),
{
    let (neg, signed): (bool, bool) = if s.len() >= 1 && (s[0] == 45 || s[0] == 43) {
        (s[0] == 45, true)
    } else {
        (false, false)
    };
    let t: &[u8] = if signed {
        slice_drop_first(s)
    } else {
        s
    };
    let e1 = find_byte(t, 101);
    let e2 = find_byte(t, 69);
    proof {
        lemma_scan_until_bounds(t@, 101);
        lemma_scan_until_bounds(t@, 69);
    }
    let eidx = if e1 <= e2 {
        e1
    } else {
        e2
    };
    let mant = slice_range(t, 0, eidx);
    proof {
        assert(mant@ =~= t@.take(eidx as int));
    }
    let v = match parse_mantissa(mant) {
        Some(v) => v,
        None => {
            return None;
        },
    };
    let w: i128 = if eidx >= t.len() {
        v as i128
    } else {
        let etext = slice_range(t, eidx + 1, t.len());
        proof {
            assert(etext@ =~= t@.skip(eidx + 1));
        }
        let e = match parse_exponent(etext) {
            Some(e) => e,
            None => {
                return None;
            },
        };
        if e >= 0 {
            let p = pow10_exec(e as usize);
            proof {
                crate::types::lemma_prod_bound2(v as int, p as int, 0x2_0000_0000_0000,
                    0x1000_0000_0000_0000);
            }
            v as i128 * p as i128
        } else {
            let p = pow10_exec((-e) as usize);
            proof {
                crate::fixed::lemma_tdiv_bounds(v as int, p as int);
            }
            crate::fixed::div_trunc(v as i128, p as i128)
        }
    };
    if w > 0x7fff_ffff as i128 * SCALE as i128 {
        return None;
    }
    let w64 = w as i64;
    if neg {
        Some(-w64)
    } else {
        Some(w64)
    }
}

/// A decimal exponent, matching `exponent_spec`.
fn parse_exponent(t: &[u8]) -> (r: Option<i64>)
    ensures
        match r {
            Some(e) => exponent_spec(t@) == Some(e as int) && -18 <= e <= 18,
            None => exponent_spec(t@) is None,
        },
{
    let (en, esigned): (bool, bool) = if t.len() >= 1 && (t[0] == 45 || t[0] == 43) {
        (t[0] == 45, true)
    } else {
        (false, false)
    };
    let d: &[u8] = if esigned {
        slice_drop_first(t)
    } else {
        t
    };
    match parse_digits(d) {
        Some(v) => {
            if v > 18 {
                return None;
            }
            proof {
                lemma_digits_prefix(d@, d@.len() as int);
            }
            if en {
                Some(-v)
            } else {
                Some(v)
            }
        },
        None => None,
    }
}

/// Parse an unsigned decimal mantissa, matching `mantissa_spec`.
fn parse_mantissa(t: &[u8]) -> (r: Option<i64>)
    ensures
        match r {
            Some(v) => mantissa_spec(t@) == Some(v as int) && 0 <= v <= 0x8000_0000 * (
            SCALE as i128) as i64,
            None => mantissa_spec(t@) is None,
        },
{
    if t.len() == 0 {
        return None;
    }
    let dot = find_byte(t, 46);
    proof {
        lemma_scan_until_bounds(t@, 46);
    }
    let ip = slice_range(t, 0, dot);
    let fp: &[u8] = if dot < t.len() {
        slice_range(t, dot + 1, t.len())
    } else {
        slice_range(t, t.len(), t.len())
    };
    proof {
        assert(ip@ =~= t@.take(dot as int));
        if dot < t.len() {
            assert(fp@ =~= t@.skip(dot + 1));
        } else {
            assert(fp@ =~= Seq::<u8>::empty());
        }
    }
    if ip.len() == 0 && fp.len() == 0 {
        return None;
    }
    if fp.len() > 9 {
        return None;
    }
    let ipv = match parse_digits_or_empty(ip) {
        Some(v) => v,
        None => {
            return None;
        },
    };
    let fpv = match parse_digits_or_empty(fp) {
        Some(v) => v,
        None => {
            proof {
                if all_digits(fp@) {
                    lemma_digits_len_bound(fp@);
                    lemma_pow10_mono(fp@.len(), 9);
                    assert(pow10(9) == 1000_000_000) by {
                        reveal_with_fuel(pow10, 11);
                    }
                }
            }
            return None;
        },
    };
    proof {
        if fp@.len() > 0 {
            lemma_digits_len_bound(fp@);
            lemma_pow10_mono(fp@.len(), 9);
            assert(pow10(9) == 1000_000_000) by {
                reveal_with_fuel(pow10, 11);
            }
        }
        lemma_pow10_pos(fp@.len());
        crate::fixed::lemma_tdiv_bounds(fpv * SCALE, pow10(fp@.len()));
    }
    proof {
        if fp@.len() > 0 {
            assert(fpv * SCALE <= (pow10(fp@.len()) - 1) * SCALE) by (nonlinear_arith)
                requires
                    fpv <= pow10(fp@.len()) - 1,
                    SCALE == 262144,
            ;
            assert((pow10(fp@.len()) - 1) * SCALE + SCALE == pow10(fp@.len()) * SCALE)
                by (nonlinear_arith);
            crate::fixed::lemma_tdiv_mag(fpv * SCALE, pow10(fp@.len()), SCALE as int);
            assert(SCALE * pow10(fp@.len()) == pow10(fp@.len()) * SCALE) by (nonlinear_arith);
        }
    }
    let p = pow10_exec(fp.len());
    let whole = ipv * SCALE + (fpv * SCALE) / p;
    Some(whole)
}

/// Like `parse_digits`, but an empty string parses as zero.
fn parse_digits_or_empty(s: &[u8]) -> (r: Option<i64>)
    ensures
        match r {
            Some(v) => s@.len() == 0 && v == 0 || (all_digits(s@) && v == digits_value(s@) && 0
                <= v <= 0x7fff_ffff),
            None => !(all_digits(s@) && digits_value(s@) <= 0x7fff_ffff),
        },
{
    if s.len() == 0 {
        proof {
            assert(all_digits(s@));
        }
        return Some(0);
    }
    match parse_digits(s) {
        Some(v) => {
            proof {
                lemma_digits_prefix(s@, s@.len() as int);
            }
            Some(v)
        },
        None => None,
    }
}

/// A signed integer numeral (for face indices).
pub open spec fn parse_int_spec(s: Seq<u8>) -> Option<i64> {
    let neg = s.len() >= 1 && s[0] == 45;
    let t = if neg {
        s.drop_first()
    } else {
        s
    };
    match parse_digits_spec(t) {
        Some(v) => if neg {
            Some((-v) as i64)
        } else {
            Some(v as i64)
        },
        None => None,
    }
}

/// Parse one signed integer, matching `parse_int_spec`.
pub fn parse_int(s: &[u8]) -> (r: Option<i64>)
    ensures
        r == parse_int_spec(s@),
{
    let (neg, t): (bool, &[u8]) = if s.len() >= 1 && s[0] == 45 {
        (true, slice_drop_first(s))
    } else {
        (false, s)
    };
    match parse_digits(t) {
        Some(v) => {
            proof {
                lemma_digits_prefix(t@, t@.len() as int);
            }
            if neg {
                Some(-v)
            } else {
                Some(v)
            }
        },
        None => None,
    }
}

/// The input with leading whitespace removed.
pub open spec fn skip_spaces_spec(s: Seq<u8>) -> Seq<u8>
    decreases s.len(),
{
    if s.len() > 0 && is_space(s[0]) {
        skip_spaces_spec(s.drop_first())
    } else {
        s
    }
}

/// Strip leading whitespace, matching `skip_spaces_spec`.
fn skip_spaces(s: &[u8]) -> (r: &[u8])
    ensures
        r@ == skip_spaces_spec(s@),
    decreases s@.len(),
{
    if s.len() > 0 {
        let b = s[0];
        if b == 32 || b == 9 || b == 13 {
            return skip_spaces(slice_drop_first(s));
        }
    }
    s
}

/// The first whitespace-delimited token and the remainder after it, if any
/// token is left.
pub open spec fn tok_step_spec(s: Seq<u8>) -> Option<(Seq<u8>, Seq<u8>)> {
    let t = skip_spaces_spec(s);
    if t.len() == 0 {
        None
    } else {
        let k0 = scan_until_space(t);
        let k = if k0 < 1 {
            1
        } else if k0 > t.len() {
            t.len() as int
        } else {
            k0
        };
        Some((t.take(k), t.skip(k)))
    }
}

/// Split off the first token, matching `tok_step_spec`.
pub fn tok_step(s: &[u8]) -> (r: Option<(&[u8], &[u8])>)
    ensures
        match r {
            Some(p) => tok_step_spec(s@) == Some((p.0@, p.1@)),
            None => tok_step_spec(s@) is None,
        },
{
    let t = skip_spaces(s);
    if t.len() == 0 {
        return None;
    }
    let k0 = find_space(t);
    proof {
        lemma_scan_until_space_bounds(t@);
    }
    let k = if k0 < 1 {
        1
    } else {
        k0
    };
    Some((slice_range(t, 0, k), slice_range(t, k, t.len())))
}

/// Every token after the first parses as a fixed-point numeral.
pub open spec fn parse_args_spec(s: Seq<u8>) -> Option<Seq<i64>>
    decreases s.len(),
    via parse_args_spec_dec
{
    match tok_step_spec(s) {
        None => Some(Seq::empty()),
        Some((tok, rest)) => match (parse_arg_spec(tok), parse_args_spec(rest)) {
            (Some(v), Some(vs)) => Some(seq![v] + vs),
            _ => None,
        },
    }
}

#[via_fn]
proof fn parse_args_spec_dec(s: Seq<u8>) {
    lemma_skip_spaces_len(s);
    lemma_scan_until_space_bounds(skip_spaces_spec(s));
}

/// Dropping leading spaces can only shrink the input.
proof fn lemma_skip_spaces_len(s: Seq<u8>)
    ensures
        skip_spaces_spec(s).len() <= s.len(),
    decreases s.len(),
{
    if s.len() > 0 && is_space(s[0]) {
        lemma_skip_spaces_len(s.drop_first());
    }
}

/// Parse every whitespace-separated numeral, matching `parse_args_spec`.
fn parse_args(s: &[u8]) -> (r: Option<Vec<i64>>)
    ensures
        match r {
            Some(v) => parse_args_spec(s@) == Some(v@),
            None => parse_args_spec(s@) is None,
        },
    decreases s@.len(),
{
    proof {
        lemma_skip_spaces_len(s@);
        lemma_scan_until_space_bounds(skip_spaces_spec(s@));
    }
    match tok_step(s) {
        None => {
            let v: Vec<i64> = Vec::new();
            proof {
                assert(v@ =~= Seq::<i64>::empty());
            }
            Some(v)
        },
        Some((tok, rest)) => {
            let v = match parse_arg(tok) {
                Some(v) => v,
                None => {
                    return None;
                },
            };
            match parse_args(rest) {
                Some(mut vs) => {
                    vs.insert(0, v);
                    proof {
                        assert(vs@ =~= seq![v] + vs@.drop_first());
                    }
                    Some(vs)
                },
                None => None,
            }
        },
    }
}

/// Skip the line's keyword, then parse every remaining token as a numeral.
pub open spec fn collect_args_spec(s: Seq<u8>) -> Option<Seq<i64>> {
    match tok_step_spec(s) {
        None => Some(Seq::empty()),
        Some((_, rest)) => parse_args_spec(rest),
    }
}

/// The numeric arguments of a keyword line, matching `collect_args_spec`.
pub fn collect_args(line: &[u8]) -> (r: Option<Vec<i64>>)
    ensures
        match r {
            Some(v) => collect_args_spec(line@) == Some(v@),
            None => collect_args_spec(line@) is None,
        },
{
    match tok_step(line) {
        None => {
            let v: Vec<i64> = Vec::new();
            proof {
                assert(v@ =~= Seq::<i64>::empty());
            }
            Some(v)
        },
        Some((_, rest)) => parse_args(rest),
    }
}

/// Exactly three numeric arguments.
pub open spec fn collect_triple_spec(s: Seq<u8>) -> Option<(i64, i64, i64)> {
    match collect_args_spec(s) {
        Some(v) => if v.len() == 3 {
            Some((v[0], v[1], v[2]))
        } else {
            None
        },
        None => None,
    }
}

/// The three numeric arguments of a keyword line, matching
/// `collect_triple_spec`.
pub fn collect_triple(line: &[u8]) -> (r: Option<(i64, i64, i64)>)
    ensures
        r == collect_triple_spec(line@),
{
    match collect_args(line) {
        Some(v) => if v.len() == 3 {
            Some((*v.get(0).unwrap(), *v.get(1).unwrap(), *v.get(2).unwrap()))
        } else {
            None
        },
        None => None,
    }
}

/// Up to three leading numerals, with zero for the missing ones; `None`
/// only when one of the present leading numerals fails to parse.
pub open spec fn parse_triple_spec(s: Seq<u8>) -> Option<(i64, i64, i64)> {
    match tok_step_spec(s) {
        None => Some((0, 0, 0)),
        Some((t1, s1)) => match parse_arg_spec(t1) {
            None => None,
            Some(v1) => match tok_step_spec(s1) {
                None => Some((v1, 0, 0)),
                Some((t2, s2)) => match parse_arg_spec(t2) {
                    None => None,
                    Some(v2) => match tok_step_spec(s2) {
                        None => Some((v1, v2, 0)),
                        Some((t3, _)) => match parse_arg_spec(t3) {
                            None => None,
                            Some(v3) => Some((v1, v2, v3)),
                        },
                    },
                },
            },
        },
    }
}

/// Parse up to three numerals from raw text, matching
/// `parse_triple_spec`.
pub fn parse_triple(s: &[u8]) -> (r: Option<(i64, i64, i64)>)
    ensures
        r == parse_triple_spec(s@),
{
    match tok_step(s) {
        None => Some((0, 0, 0)),
        Some((t1, s1)) => match parse_arg(t1) {
            None => None,
            Some(v1) => match tok_step(s1) {
                None => Some((v1, 0, 0)),
                Some((t2, s2)) => match parse_arg(t2) {
                    None => None,
                    Some(v2) => match tok_step(s2) {
                        None => Some((v1, v2, 0)),
                        Some((t3, _)) => match parse_arg(t3) {
                            None => None,
                            Some(v3) => Some((v1, v2, v3)),
                        },
                    },
                },
            },
        },
    }
}

/// Resolve a one-based (or negative, relative) index against the number of
/// vertices read so far: zero and anything past the end are refused,
/// positive indices count from one, negative ones from the end.
pub open spec fn abs_index_spec(index: int, max: int) -> Option<int> {
    if index == 0 || index > max {
        None
    } else if index > 0 {
        Some(index - 1)
    } else if max + index >= 0 {
        Some(max + index)
    } else {
        None
    }
}

/// Executable index resolution, matching `abs_index_spec`.
pub fn get_absolute_index(index: i64, max_index: usize) -> (r: Option<usize>)
    requires
        max_index <= 0x1000_0000,
    ensures
        match r {
            Some(v) => abs_index_spec(index as int, max_index as int) == Some(v as int),
            None => abs_index_spec(index as int, max_index as int) is None,
        },
{
    let max = max_index as i64;
    if index == 0 || index > max {
        None
    } else if index > 0 {
        Some((index - 1) as usize)
    } else if max + index >= 0 {
        Some((max + index) as usize)
    } else {
        None
    }
}

/// One vertex reference of a face statement.
#[derive(Clone, Copy, PartialEq, Eq, Structural, Debug)]
pub struct FaceIndex {
    pub vertex_index: i64,
}

/// A face index is the integer before the first slash.
pub open spec fn face_index_spec(s: Seq<u8>) -> Option<FaceIndex> {
    match parse_int_spec(s.take(scan_until(s, 47))) {
        Some(v) => Some(FaceIndex { vertex_index: v }),
        None => None,
    }
}

impl FaceIndex {
    /// Parse one face-index token, matching `face_index_spec`.
    pub fn parse(s: &[u8]) -> (r: Option<FaceIndex>)
        ensures
            r == face_index_spec(s@),
    {
        let slash = find_byte(s, 47);
        proof {
            lemma_scan_until_bounds(s@, 47);
        }
        let head = slice_range(s, 0, slash);
        proof {
            assert(head@ =~= s@.take(scan_until(s@, 47)));
        }
        match parse_int(head) {
            Some(v) => Some(FaceIndex { vertex_index: v }),
            None => None,
        }
    }

    /// Resolve this reference against the vertices read so far.
    pub fn vertex(&self, num_vertices: usize) -> (r: Option<usize>)
        requires
            num_vertices <= 0x1000_0000,
        ensures
            match r {
                Some(v) => abs_index_spec(self.vertex_index as int,
                    num_vertices as int) == Some(v as int),
                None => abs_index_spec(self.vertex_index as int, num_vertices as int) is None,
            },
    {
        get_absolute_index(self.vertex_index, num_vertices)
    }
}

/// Every token parses as a face index.
pub open spec fn face_ids_spec(s: Seq<u8>) -> Option<Seq<FaceIndex>>
    decreases s.len(),
    via face_ids_spec_dec
{
    match tok_step_spec(s) {
        None => Some(Seq::empty()),
        Some((tok, rest)) => match (face_index_spec(tok), face_ids_spec(rest)) {
            (Some(v), Some(vs)) => Some(seq![v] + vs),
            _ => None,
        },
    }
}

#[via_fn]
proof fn face_ids_spec_dec(s: Seq<u8>) {
    lemma_skip_spaces_len(s);
    lemma_scan_until_space_bounds(skip_spaces_spec(s));
}

/// Parse every token as a face index, matching `face_ids_spec`.
fn parse_face_ids(s: &[u8]) -> (r: Option<Vec<FaceIndex>>)
    ensures
        match r {
            Some(v) => face_ids_spec(s@) == Some(v@),
            None => face_ids_spec(s@) is None,
        },
    decreases s@.len(),
{
    proof {
        lemma_skip_spaces_len(s@);
        lemma_scan_until_space_bounds(skip_spaces_spec(s@));
    }
    match tok_step(s) {
        None => {
            let v: Vec<FaceIndex> = Vec::new();
            proof {
                assert(v@ =~= Seq::<FaceIndex>::empty());
            }
            Some(v)
        },
        Some((tok, rest)) => {
            let v = match FaceIndex::parse(tok) {
                Some(v) => v,
                None => {
                    return None;
                },
            };
            match parse_face_ids(rest) {
                Some(mut vs) => {
                    vs.insert(0, v);
                    proof {
                        assert(vs@ =~= seq![v] + vs@.drop_first());
                    }
                    Some(vs)
                },
                None => None,
            }
        },
    }
}

// --- The document fold. -------------------------------------------------

/// One parsed face: the material name in force and three resolved
/// vertices.
#[derive(Debug)]
pub struct WavefrontFace {
    pub material: Vec<u8>,
    pub vertices: (Point3, Point3, Point3),
}

/// The parser's state and final result: vertices read, faces assembled,
/// material libraries requested, and the material name in force.
#[derive(Debug)]
pub struct WavefrontObject {
    pub vertices: Vec<Point3>,
    pub faces: Vec<WavefrontFace>,
    pub mtl_requests: Vec<Vec<u8>>,
    pub current_material: Vec<u8>,
}

/// The mathematical image of one face.
pub struct FaceModel {
    pub material: Seq<u8>,
    pub v0: Point3,
    pub v1: Point3,
    pub v2: Point3,
}

/// The mathematical image of the parser state.
pub struct ObjModel {
    pub vertices: Seq<Point3>,
    pub faces: Seq<FaceModel>,
    pub mtl_requests: Seq<Seq<u8>>,
    pub current: Seq<u8>,
}

pub open spec fn face_view(f: WavefrontFace) -> FaceModel {
    FaceModel {
        material: f.material@,
        v0: f.vertices.0,
        v1: f.vertices.1,
        v2: f.vertices.2,
    }
}

pub open spec fn obj_view(o: WavefrontObject) -> ObjModel {
    ObjModel {
        vertices: o.vertices@,
        faces: o.faces@.map_values(|f: WavefrontFace| face_view(f)),
        mtl_requests: o.mtl_requests@.map_values(|v: Vec<u8>| v@),
        current: o.current_material@,
    }
}

/// Every stored coordinate is in range and the vertex count is bounded.
pub open spec fn obj_model_wf(m: ObjModel) -> bool {
    &&& m.vertices.len() <= 0x1000_0000
    &&& forall|i: int|
        0 <= i < m.vertices.len() ==> crate::types::bounded_p(#[trigger] m.vertices[i],
            COORD_LIMIT as int)
    &&& forall|i: int|
        0 <= i < m.faces.len() ==> crate::types::bounded_p((#[trigger] m.faces[i]).v0,
            COORD_LIMIT as int) && crate::types::bounded_p(m.faces[i].v1, COORD_LIMIT as int)
            && crate::types::bounded_p(m.faces[i].v2, COORD_LIMIT as int)
}

/// What one line does to the parser state: a `v` line appends an in-range
/// vertex, an `f` line resolves at least three (at most four) indices into
/// one or two faces under the material in force, `usemtl` switches that
/// material, `mtllib` records a request, and comments, blanks and unknown
/// keywords change nothing. `None` is a parse error and aborts the
/// document.
pub open spec fn obj_step(m: ObjModel, line: Seq<u8>) -> Option<ObjModel> {
    match tok_step_spec(line) {
        None => Some(m),
        Some((kw, rest)) => {
            if kw == seq![118u8] {
                // "v"
                match collect_triple_spec(line) {
                    Some((x, y, z)) => {
                        let p = Point3 { x, y, z };
                        if crate::types::bounded_p(p, COORD_LIMIT as int) && m.vertices.len()
                            < 0x1000_0000 {
                            Some(ObjModel { vertices: m.vertices.push(p), ..m })
                        } else {
                            None
                        }
                    },
                    None => None,
                }
            } else if kw == seq![102u8] {
                // "f"
                match face_ids_spec(rest) {
                    Some(ids) => if ids.len() < 3 {
                        None
                    } else {
                        let n = m.vertices.len() as int;
                        match (abs_index_spec(ids[0].vertex_index as int, n), abs_index_spec(
                            ids[1].vertex_index as int, n), abs_index_spec(
                            ids[2].vertex_index as int, n)) {
                            (Some(a), Some(b), Some(c)) => {
                                let f1 = FaceModel {
                                    material: m.current,
                                    v0: m.vertices[a],
                                    v1: m.vertices[b],
                                    v2: m.vertices[c],
                                };
                                if ids.len() >= 4 {
                                    match abs_index_spec(ids[3].vertex_index as int, n) {
                                        Some(d) => Some(ObjModel {
                                            faces: m.faces.push(f1).push(FaceModel {
                                                material: m.current,
                                                v0: m.vertices[a],
                                                v1: m.vertices[c],
                                                v2: m.vertices[d],
                                            }),
                                            ..m
                                        }),
                                        None => None,
                                    }
                                } else {
                                    Some(ObjModel { faces: m.faces.push(f1), ..m })
                                }
                            },
                            _ => None,
                        }
                    },
                    None => None,
                }
            } else if kw == seq![117u8, 115u8, 101u8, 109u8, 116u8, 108u8] {
                // "usemtl"
                match tok_step_spec(rest) {
                    Some((name, _)) => Some(ObjModel { current: name, ..m }),
                    None => Some(ObjModel { current: Seq::empty(), ..m }),
                }
            } else if kw == seq![109u8, 116u8, 108u8, 108u8, 105u8, 98u8] {
                // "mtllib"
                match tok_step_spec(rest) {
                    Some((name, _)) => Some(ObjModel {
                        mtl_requests: m.mtl_requests.push(name),
                        ..m
                    }),
                    None => None,
                }
            } else {
                Some(m)
            }
        },
    }
}

/// Fold `obj_step` over the lines of a document.
pub open spec fn obj_fold(m: ObjModel, lines: Seq<Seq<u8>>) -> Option<ObjModel>
    decreases lines.len(),
{
    if lines.len() == 0 {
        Some(m)
    } else {
        match obj_step(m, lines[0]) {
            Some(m2) => obj_fold(m2, lines.drop_first()),
            None => None,
        }
    }
}

/// Folding one more line continues from the previous fold.
proof fn lemma_obj_fold_push(m: ObjModel, lines: Seq<Seq<u8>>, line: Seq<u8>)
    ensures
        obj_fold(m, lines.push(line)) == match obj_fold(m, lines) {
            Some(m2) => obj_step(m2, line),
            None => None,
        },
    decreases lines.len(),
{
    if lines.len() == 0 {
        assert(lines.push(line)[0] == line);
        assert(lines.push(line).drop_first() =~= Seq::<Seq<u8>>::empty());
        match obj_step(m, line) {
            Some(m2) => {
                assert(obj_fold(m2, lines.push(line).drop_first()) == Some(m2));
            },
            None => {
            },
        }
    } else {
        assert(lines.push(line)[0] == lines[0]);
        assert(lines.push(line).drop_first() =~= lines.drop_first().push(line));
        match obj_step(m, lines[0]) {
            Some(m2) => {
                lemma_obj_fold_push(m2, lines.drop_first(), line);
            },
            None => {
            },
        }
    }
}

/// A failed fold of a prefix fails the whole fold.
proof fn lemma_obj_fold_prefix_none(m: ObjModel, lines: Seq<Seq<u8>>, k: int)
    requires
        0 <= k <= lines.len(),
        obj_fold(m, lines.take(k)) is None,
    ensures
        obj_fold(m, lines) is None,
    decreases lines.len(),
{
    if k > 0 {
        assert(lines.take(k)[0] == lines[0]);
        match obj_step(m, lines[0]) {
            Some(m2) => {
                assert(lines.take(k).drop_first() =~= lines.drop_first().take(k - 1));
                lemma_obj_fold_prefix_none(m2, lines.drop_first(), k - 1);
            },
            None => {
            },
        }
    }
}

/// The empty initial state: no vertices, no faces, the default material
/// name in force.
pub open spec fn obj_init() -> ObjModel {
    ObjModel {
        vertices: Seq::empty(),
        faces: Seq::empty(),
        mtl_requests: Seq::empty(),
        current: Seq::empty(),
    }
}

impl WavefrontObject {
    /// Parse a whole document, line by line: the result is exactly the
    /// fold of `obj_step` from the empty state, and every stored
    /// coordinate is in range.
    pub fn parse(lines: &Vec<Vec<u8>>) -> (r: Option<WavefrontObject>)
        ensures
            match r {
                Some(o) => obj_fold(obj_init(), lines@.map_values(|l: Vec<u8>| l@)) == Some(
                    obj_view(o)) && obj_model_wf(obj_view(o)),
                None => obj_fold(obj_init(), lines@.map_values(|l: Vec<u8>| l@)) is None,
            },
    {
        let ghost lseq = lines@.map_values(|l: Vec<u8>| l@);
        let mut state = WavefrontObject {
            vertices: Vec::new(),
            faces: Vec::new(),
            mtl_requests: Vec::new(),
            current_material: Vec::new(),
        };
        proof {
            assert(obj_view(state).vertices =~= obj_init().vertices);
            assert(obj_view(state).faces =~= obj_init().faces);
            assert(obj_view(state).mtl_requests =~= obj_init().mtl_requests);
            assert(obj_view(state).current =~= obj_init().current);
            assert(lseq.take(0) =~= Seq::<Seq<u8>>::empty());
        }
        let mut i: usize = 0;
        while i < lines.len()
            invariant
                0 <= i <= lines@.len(),
                lseq == lines@.map_values(|l: Vec<u8>| l@),
                lseq.len() == lines@.len(),
                obj_fold(obj_init(), lseq.take(i as int)) == Some(obj_view(state)),
                obj_model_wf(obj_view(state)),
            decreases lines@.len() - i,
        {
            let ghost pre = obj_view(state);
            let ok = state.apply_line(lines.get(i).unwrap().as_slice());
            proof {
                assert(lseq.take(i + 1) =~= lseq.take(i as int).push(lseq[i as int]));
                lemma_obj_fold_push(obj_init(), lseq.take(i as int), lseq[i as int]);
                assert(lseq[i as int] == lines@[i as int]@);
            }
            if !ok {
                proof {
                    lemma_obj_fold_prefix_none(obj_init(), lseq, i + 1);
                }
                return None;
            }
            i = i + 1;
        }
        proof {
            assert(lseq.take(i as int) =~= lseq);
        }
        Some(state)
    }

    /// Apply one line to the parser state; `false` reports a parse error
    /// (the state is then unspecified).
    fn apply_line(&mut self, line: &[u8]) -> (ok: bool)
        requires
            obj_model_wf(obj_view(*old(self))),
        ensures
            ok ==> obj_step(obj_view(*old(self)), line@) == Some(obj_view(*final(self)))
                && obj_model_wf(obj_view(*final(self))),
            !ok ==> obj_step(obj_view(*old(self)), line@) is None,
    {
        let step = tok_step(line);
        let (kw, rest) = match step {
            None => {
                return true;
            },
            Some(p) => p,
        };
        if kw.len() == 1 && kw[0] == 118 {
            proof {
                assert(kw@ =~= seq![118u8]);
            }
            match collect_triple(line) {
                Some((x, y, z)) => {
                    let within = -COORD_LIMIT <= x && x <= COORD_LIMIT && -COORD_LIMIT <= y && y
                        <= COORD_LIMIT && -COORD_LIMIT <= z && z <= COORD_LIMIT;
                    if within && self.vertices.len() < 0x1000_0000 {
                        self.vertices.push(Point3 { x, y, z });
                        proof {
                            assert(obj_view(*self).faces =~= obj_view(*old(self)).faces);
                            assert(obj_view(*self).mtl_requests =~= obj_view(
                                *old(self)).mtl_requests);
                        }
                        true
                    } else {
                        false
                    }
                },
                None => false,
            }
        } else if kw.len() == 1 && kw[0] == 102 {
            proof {
                assert(kw@ =~= seq![102u8]);
            }
            let ids = match parse_face_ids(rest) {
                Some(ids) => ids,
                None => {
                    return false;
                },
            };
            if ids.len() < 3 {
                return false;
            }
            let n = self.vertices.len();
            let a = match ids.get(0).unwrap().vertex(n) {
                Some(a) => a,
                None => {
                    return false;
                },
            };
            let b = match ids.get(1).unwrap().vertex(n) {
                Some(b) => b,
                None => {
                    return false;
                },
            };
            let c = match ids.get(2).unwrap().vertex(n) {
                Some(c) => c,
                None => {
                    return false;
                },
            };
            let f1 = WavefrontFace {
                material: self.current_material.clone(),
                vertices: (*self.vertices.get(a).unwrap(), *self.vertices.get(b).unwrap(),
                    *self.vertices.get(c).unwrap()),
            };
            if ids.len() >= 4 {
                let d = match ids.get(3).unwrap().vertex(n) {
                    Some(d) => d,
                    None => {
                        return false;
                    },
                };
                let f2 = WavefrontFace {
                    material: self.current_material.clone(),
                    vertices: (*self.vertices.get(a).unwrap(), *self.vertices.get(c).unwrap(),
                        *self.vertices.get(d).unwrap()),
                };
                self.faces.push(f1);
                self.faces.push(f2);
                proof {
                    assert(obj_view(*self).faces =~= obj_view(*old(self)).faces.push(face_view(
                        obj_face_1(*old(self), a as int, b as int, c as int))).push(face_view(
                        obj_face_1(*old(self), a as int, c as int, d as int))));
                    assert(obj_view(*self).vertices =~= obj_view(*old(self)).vertices);
                    assert(obj_view(*self).mtl_requests =~= obj_view(*old(self)).mtl_requests);
                }
                true
            } else {
                self.faces.push(f1);
                proof {
                    assert(obj_view(*self).faces =~= obj_view(*old(self)).faces.push(face_view(
                        obj_face_1(*old(self), a as int, b as int, c as int))));
                    assert(obj_view(*self).vertices =~= obj_view(*old(self)).vertices);
                    assert(obj_view(*self).mtl_requests =~= obj_view(*old(self)).mtl_requests);
                }
                true
            }
        } else if kw.len() == 6 && kw[0] == 117 && kw[1] == 115 && kw[2] == 101 && kw[3] == 109
            && kw[4] == 116 && kw[5] == 108 {
            proof {
                assert(kw@ =~= seq![117u8, 115u8, 101u8, 109u8, 116u8, 108u8]);
            }
            match tok_step(rest) {
                Some((name, _)) => {
                    self.current_material = slice_to_vec(name);
                },
                None => {
                    self.current_material = Vec::new();
                    proof {
                        assert(self.current_material@ =~= Seq::<u8>::empty());
                    }
                },
            }
            proof {
                assert(obj_view(*self).faces =~= obj_view(*old(self)).faces);
                assert(obj_view(*self).mtl_requests =~= obj_view(*old(self)).mtl_requests);
            }
            true
        } else if kw.len() == 6 && kw[0] == 109 && kw[1] == 116 && kw[2] == 108 && kw[3] == 108
            && kw[4] == 105 && kw[5] == 98 {
            proof {
                assert(kw@ =~= seq![109u8, 116u8, 108u8, 108u8, 105u8, 98u8]);
            }
            match tok_step(rest) {
                Some((name, _)) => {
                    self.mtl_requests.push(slice_to_vec(name));
                    proof {
                        assert(obj_view(*self).faces =~= obj_view(*old(self)).faces);
                        assert(obj_view(*self).mtl_requests =~= obj_view(
                            *old(self)).mtl_requests.push(obj_view(*self).mtl_requests.last()));
                    }
                    true
                },
                None => false,
            }
        } else {
            proof {
                assert(kw@ != seq![118u8] && kw@ != seq![102u8]);
                assert(kw@ != seq![117u8, 115u8, 101u8, 109u8, 116u8, 108u8]);
                assert(kw@ != seq![109u8, 116u8, 108u8, 108u8, 105u8, 98u8]);
            }
            true
        }
    }
}

/// The face a resolved index triple makes under the current material.
pub open spec fn obj_face_1(o: WavefrontObject, a: int, b: int, c: int) -> WavefrontFace {
    WavefrontFace {
        material: o.current_material,
        vertices: (o.vertices@[a], o.vertices@[b], o.vertices@[c]),
    }
}

// --- Material libraries (MTL text). -------------------------------------

/// One named material of a library; `diffuse_texture` names an image file
/// for the diffuse colour, empty when none was given (decoding the image
/// happens at the loading edge, outside the parser).
#[derive(Clone, PartialEq, Eq, Debug)]
pub struct WavefrontMaterial {
    pub name: Vec<u8>,
    pub diffuse_color: Rgb,
    pub emissive_color: Rgb,
    pub specular_color: Rgb,
    pub diffuse_texture: Vec<u8>,
}

/// The mathematical image of one library material.
pub struct MtlModel {
    pub name: Seq<u8>,
    pub diffuse: Rgb,
    pub emissive: Rgb,
    pub specular: Rgb,
    pub texture: Seq<u8>,
}

pub open spec fn mtl_view(m: WavefrontMaterial) -> MtlModel {
    MtlModel {
        name: m.name@,
        diffuse: m.diffuse_color,
        emissive: m.emissive_color,
        specular: m.specular_color,
        texture: m.diffuse_texture@,
    }
}

/// The state of an MTL parse: the materials read, and which one colour
/// statements currently apply to.
pub struct LibModel {
    pub materials: Seq<MtlModel>,
    pub current: int,
}

/// Executable MTL parser state.
#[derive(Debug)]
pub struct MtlLibrary {
    pub materials: Vec<WavefrontMaterial>,
    pub has_current: bool,
}

pub open spec fn lib_view(l: MtlLibrary) -> LibModel {
    LibModel {
        materials: l.materials@.map_values(|m: WavefrontMaterial| mtl_view(m)),
        current: if l.has_current {
            l.materials@.len() - 1
        } else {
            -1
        },
    }
}

/// The parser keeps a material selected exactly when any exists.
pub open spec fn lib_wf(l: MtlLibrary) -> bool {
    l.has_current <==> l.materials@.len() >= 1
}

/// What one MTL line does: `newmtl` starts a fresh black material under
/// the given name, `Kd` / `Ke` / `Ks` set the diffuse, emissive and
/// specular colours of the material in force, and `map_Kd` names its
/// diffuse texture image; a colour or texture statement with no material
/// in force, or with malformed arguments, is an error. Anything else is
/// ignored.
pub open spec fn mtl_step(m: LibModel, line: Seq<u8>) -> Option<LibModel> {
    match tok_step_spec(line) {
        None => Some(m),
        Some((kw, rest)) => {
            if kw == seq![110u8, 101u8, 119u8, 109u8, 116u8, 108u8] {
                // "newmtl"
                let name = match tok_step_spec(rest) {
                    Some((n, _)) => n,
                    None => Seq::empty(),
                };
                let fresh = MtlModel {
                    name,
                    diffuse: Rgb { red: 0, green: 0, blue: 0 },
                    emissive: Rgb { red: 0, green: 0, blue: 0 },
                    specular: Rgb { red: 0, green: 0, blue: 0 },
                    texture: Seq::empty(),
                };
                Some(LibModel {
                    materials: m.materials.push(fresh),
                    current: m.materials.len() as int,
                })
            } else if kw == seq![75u8, 100u8] {
                // "Kd"
                match collect_triple_spec(line) {
                    Some((r, g, b)) => if 0 <= m.current < m.materials.len() {
                        Some(LibModel {
                            materials: m.materials.update(m.current, MtlModel {
                                diffuse: Rgb { red: r, green: g, blue: b },
                                ..m.materials[m.current]
                            }),
                            ..m
                        })
                    } else {
                        None
                    },
                    None => None,
                }
            } else if kw == seq![75u8, 101u8] {
                // "Ke"
                match collect_triple_spec(line) {
                    Some((r, g, b)) => if 0 <= m.current < m.materials.len() {
                        Some(LibModel {
                            materials: m.materials.update(m.current, MtlModel {
                                emissive: Rgb { red: r, green: g, blue: b },
                                ..m.materials[m.current]
                            }),
                            ..m
                        })
                    } else {
                        None
                    },
                    None => None,
                }
            } else if kw == seq![75u8, 115u8] {
                // "Ks"
                match collect_triple_spec(line) {
                    Some((r, g, b)) => if 0 <= m.current < m.materials.len() {
                        Some(LibModel {
                            materials: m.materials.update(m.current, MtlModel {
                                specular: Rgb { red: r, green: g, blue: b },
                                ..m.materials[m.current]
                            }),
                            ..m
                        })
                    } else {
                        None
                    },
                    None => None,
                }
            } else if kw == seq![109u8, 97u8, 112u8, 95u8, 75u8, 100u8] {
                // "map_Kd"
                match tok_step_spec(rest) {
                    Some((tex, _)) => if 0 <= m.current < m.materials.len() {
                        Some(LibModel {
                            materials: m.materials.update(m.current, MtlModel {
                                texture: tex,
                                ..m.materials[m.current]
                            }),
                            ..m
                        })
                    } else {
                        None
                    },
                    None => None,
                }
            } else {
                Some(m)
            }
        },
    }
}

/// Fold `mtl_step` over the lines of a library file.
pub open spec fn mtl_fold(m: LibModel, lines: Seq<Seq<u8>>) -> Option<LibModel>
    decreases lines.len(),
{
    if lines.len() == 0 {
        Some(m)
    } else {
        match mtl_step(m, lines[0]) {
            Some(m2) => mtl_fold(m2, lines.drop_first()),
            None => None,
        }
    }
}

proof fn lemma_mtl_fold_push(m: LibModel, lines: Seq<Seq<u8>>, line: Seq<u8>)
    ensures
        mtl_fold(m, lines.push(line)) == match mtl_fold(m, lines) {
            Some(m2) => mtl_step(m2, line),
            None => None,
        },
    decreases lines.len(),
{
    if lines.len() == 0 {
        assert(lines.push(line)[0] == line);
        assert(lines.push(line).drop_first() =~= Seq::<Seq<u8>>::empty());
        match mtl_step(m, line) {
            Some(m2) => {
                assert(mtl_fold(m2, lines.push(line).drop_first()) == Some(m2));
            },
            None => {
            },
        }
    } else {
        assert(lines.push(line)[0] == lines[0]);
        assert(lines.push(line).drop_first() =~= lines.drop_first().push(line));
        match mtl_step(m, lines[0]) {
            Some(m2) => {
                lemma_mtl_fold_push(m2, lines.drop_first(), line);
            },
            None => {
            },
        }
    }
}

proof fn lemma_mtl_fold_prefix_none(m: LibModel, lines: Seq<Seq<u8>>, k: int)
    requires
        0 <= k <= lines.len(),
        mtl_fold(m, lines.take(k)) is None,
    ensures
        mtl_fold(m, lines) is None,
    decreases lines.len(),
{
    if k > 0 {
        assert(lines.take(k)[0] == lines[0]);
        match mtl_step(m, lines[0]) {
            Some(m2) => {
                assert(lines.take(k).drop_first() =~= lines.drop_first().take(k - 1));
                lemma_mtl_fold_prefix_none(m2, lines.drop_first(), k - 1);
            },
            None => {
            },
        }
    }
}

/// The empty library.
pub open spec fn lib_init() -> LibModel {
    LibModel { materials: Seq::empty(), current: -1 }
}

impl MtlLibrary {
    /// Parse a whole material library: the result is exactly the fold of
    /// `mtl_step` from the empty library.
    pub fn parse(lines: &Vec<Vec<u8>>) -> (r: Option<MtlLibrary>)
        ensures
            match r {
                Some(l) => mtl_fold(lib_init(), lines@.map_values(|v: Vec<u8>| v@)) == Some(
                    lib_view(l)),
                None => mtl_fold(lib_init(), lines@.map_values(|v: Vec<u8>| v@)) is None,
            },
    {
        let ghost lseq = lines@.map_values(|v: Vec<u8>| v@);
        let mut state = MtlLibrary { materials: Vec::new(), has_current: false };
        proof {
            assert(lib_view(state).materials =~= lib_init().materials);
            assert(lseq.take(0) =~= Seq::<Seq<u8>>::empty());
        }
        let mut i: usize = 0;
        while i < lines.len()
            invariant
                0 <= i <= lines@.len(),
                lseq == lines@.map_values(|v: Vec<u8>| v@),
                lseq.len() == lines@.len(),
                mtl_fold(lib_init(), lseq.take(i as int)) == Some(lib_view(state)),
                lib_wf(state),
            decreases lines@.len() - i,
        {
            let ok = state.apply_line(lines.get(i).unwrap().as_slice());
            proof {
                assert(lseq.take(i + 1) =~= lseq.take(i as int).push(lseq[i as int]));
                lemma_mtl_fold_push(lib_init(), lseq.take(i as int), lseq[i as int]);
                assert(lseq[i as int] == lines@[i as int]@);
            }
            if !ok {
                proof {
                    lemma_mtl_fold_prefix_none(lib_init(), lseq, i + 1);
                }
                return None;
            }
            i = i + 1;
        }
        proof {
            assert(lseq.take(i as int) =~= lseq);
        }
        Some(state)
    }

    /// Apply one library line; `false` reports a parse error.
    fn apply_line(&mut self, line: &[u8]) -> (ok: bool)
        requires
            lib_wf(*old(self)),
        ensures
            ok ==> mtl_step(lib_view(*old(self)), line@) == Some(lib_view(*final(self)))
                && lib_wf(*final(self)),
            !ok ==> mtl_step(lib_view(*old(self)), line@) is None,
    {
        let step = tok_step(line);
        let (kw, rest) = match step {
            None => {
                return true;
            },
            Some(p) => p,
        };
        if kw.len() == 6 && kw[0] == 110 && kw[1] == 101 && kw[2] == 119 && kw[3] == 109
            && kw[4] == 116 && kw[5] == 108 {
            proof {
                assert(kw@ =~= seq![110u8, 101u8, 119u8, 109u8, 116u8, 108u8]);
            }
            let name = match tok_step(rest) {
                Some((n, _)) => slice_to_vec(n),
                None => Vec::new(),
            };
            proof {
                if tok_step_spec(rest@) is None {
                    assert(name@ =~= Seq::<u8>::empty());
                }
            }
            let black = Rgb { red: 0, green: 0, blue: 0 };
            let no_texture: Vec<u8> = Vec::new();
            proof {
                assert(no_texture@ =~= Seq::<u8>::empty());
            }
            self.materials.push(WavefrontMaterial {
                name,
                diffuse_color: black,
                emissive_color: black,
                specular_color: black,
                diffuse_texture: no_texture,
            });
            self.has_current = true;
            proof {
                assert(lib_view(*self).materials =~= lib_view(*old(self)).materials.push(
                    lib_view(*self).materials.last()));
            }
            true
        } else if kw.len() == 2 && kw[0] == 75 && (kw[1] == 100 || kw[1] == 101 || kw[1]
            == 115) {
            let which = kw[1];
            proof {
                if which == 100 {
                    assert(kw@ =~= seq![75u8, 100u8]);
                } else if which == 101 {
                    assert(kw@ =~= seq![75u8, 101u8]);
                } else {
                    assert(kw@ =~= seq![75u8, 115u8]);
                }
            }
            match collect_triple(line) {
                Some((r, g, b)) => {
                    if !self.has_current {
                        return false;
                    }
                    let idx = self.materials.len() - 1;
                    let mut entry = self.materials.remove(idx);
                    let c = Rgb { red: r, green: g, blue: b };
                    if which == 100 {
                        entry.diffuse_color = c;
                    } else if which == 101 {
                        entry.emissive_color = c;
                    } else {
                        entry.specular_color = c;
                    }
                    self.materials.push(entry);
                    proof {
                        assert(lib_view(*self).materials =~= lib_view(
                            *old(self)).materials.update(lib_view(*old(self)).current,
                            lib_view(*self).materials.last()));
                    }
                    true
                },
                None => false,
            }
        } else if kw.len() == 6 && kw[0] == 109 && kw[1] == 97 && kw[2] == 112 && kw[3] == 95
            && kw[4] == 75 && kw[5] == 100 {
            proof {
                assert(kw@ =~= seq![109u8, 97u8, 112u8, 95u8, 75u8, 100u8]);
            }
            match tok_step(rest) {
                Some((tex, _)) => {
                    if !self.has_current {
                        return false;
                    }
                    let idx = self.materials.len() - 1;
                    let mut entry = self.materials.remove(idx);
                    entry.diffuse_texture = slice_to_vec(tex);
                    self.materials.push(entry);
                    proof {
                        assert(lib_view(*self).materials =~= lib_view(
                            *old(self)).materials.update(lib_view(*old(self)).current,
                            lib_view(*self).materials.last()));
                    }
                    true
                },
                None => false,
            }
        } else {
            proof {
                assert(kw@ != seq![110u8, 101u8, 119u8, 109u8, 116u8, 108u8]);
                assert(kw@ != seq![75u8, 100u8]);
                assert(kw@ != seq![75u8, 101u8]);
                assert(kw@ != seq![75u8, 115u8]);
                assert(kw@ != seq![109u8, 97u8, 112u8, 95u8, 75u8, 100u8]);
            }
            true
        }
    }
}

/// Whether any channel of the colour is set.
pub open spec fn color_set_spec(c: Rgb) -> bool {
    c.red > 0 || c.green > 0 || c.blue > 0
}

/// Whether any channel of the colour is set.
pub fn is_color_set(color: &Rgb) -> (r: bool)
    ensures
        r == color_set_spec(*color),
{
    color.red > 0 || color.green > 0 || color.blue > 0
}

/// The renderer material a library entry stands for: emissive if any
/// emissive channel is set, else perfectly specular if any specular
/// channel is set, else diffuse.
pub open spec fn rays_material_spec(m: MtlModel) -> crate::material::Material {
    if color_set_spec(m.emissive) {
        crate::material::Material {
            color: crate::material::Color::Solid(m.emissive),
            kind: crate::material::Kind::Emissive,
        }
    } else if color_set_spec(m.specular) {
        crate::material::Material {
            color: crate::material::Color::Solid(m.specular),
            kind: crate::material::Kind::Ggx {
                index: 393216,
                roughness: 0,
                metallic: true,
                transparent: false,
            },
        }
    } else {
        crate::material::Material {
            color: crate::material::Color::Solid(m.diffuse),
            kind: crate::material::Kind::Ggx {
                index: SCALE,
                roughness: SCALE,
                metallic: false,
                transparent: false,
            },
        }
    }
}

impl WavefrontMaterial {
    /// Convert this library entry into a renderer material.
    pub fn as_rays_material(&self) -> (r: crate::material::Material)
        ensures
            r == rays_material_spec(mtl_view(*self)),
    {
        if is_color_set(&self.emissive_color) {
            crate::material::Material::light(crate::material::Color::solid(self.emissive_color))
        } else if is_color_set(&self.specular_color) {
            crate::material::Material::specular(crate::material::Color::solid(
                self.specular_color))
        } else {
            crate::material::Material::diffuse(crate::material::Color::solid(self.diffuse_color))
        }
    }
}

/// The material a face name selects: the first library entry of that
/// name, or a diffuse white fallback.
pub open spec fn material_for_spec(mats: Seq<MtlModel>, name: Seq<u8>) -> crate::material::Material
    decreases mats.len(),
{
    if mats.len() == 0 {
        crate::material::Material {
            color: crate::material::Color::Solid(Rgb { red: SCALE, green: SCALE, blue: SCALE }),
            kind: crate::material::Kind::Ggx {
                index: SCALE,
                roughness: SCALE,
                metallic: false,
                transparent: false,
            },
        }
    } else if mats[0].name == name {
        rays_material_spec(mats[0])
    } else {
        material_for_spec(mats.drop_first(), name)
    }
}

/// Whatever the lookup returns is a well-formed material.
proof fn lemma_material_for_wf(mats: Seq<MtlModel>, name: Seq<u8>)
    ensures
        crate::material::material_wf(material_for_spec(mats, name)),
    decreases mats.len(),
{
    if mats.len() != 0 && mats[0].name != name {
        lemma_material_for_wf(mats.drop_first(), name);
    }
}

/// Look a material up by name, matching `material_for_spec`.
fn material_for(mats: &Vec<WavefrontMaterial>, name: &[u8]) -> (r: crate::material::Material)
    ensures
        r == material_for_spec(mats@.map_values(|m: WavefrontMaterial| mtl_view(m)), name@),
{
    let ghost mseq = mats@.map_values(|m: WavefrontMaterial| mtl_view(m));
    proof {
        assert(mseq.skip(0) =~= mseq);
    }
    let mut i: usize = 0;
    while i < mats.len()
        invariant
            0 <= i <= mats@.len(),
            mseq == mats@.map_values(|m: WavefrontMaterial| mtl_view(m)),
            mseq.len() == mats@.len(),
            material_for_spec(mseq, name@) == material_for_spec(mseq.skip(i as int), name@),
        decreases mats@.len() - i,
    {
        proof {
            assert(mseq.skip(i as int)[0] == mseq[i as int]);
            assert(mseq.skip(i as int).drop_first() =~= mseq.skip(i + 1));
        }
        if bytes_eq(mats.get(i).unwrap().name.as_slice(), name) {
            return mats.get(i).unwrap().as_rays_material();
        }
        i = i + 1;
    }
    proof {
        assert(mseq.skip(i as int) =~= Seq::<MtlModel>::empty());
    }
    crate::material::Material::diffuse(crate::material::Color::solid(Rgb {
        red: SCALE,
        green: SCALE,
        blue: SCALE,
    }))
}

/// Byte-for-byte equality of two slices.
fn bytes_eq(a: &[u8], b: &[u8]) -> (r: bool)
    ensures
        r <==> a@ == b@,
{
    if a.len() != b.len() {
        proof {
            assert(a@.len() != b@.len());
        }
        return false;
    }
    let mut i: usize = 0;
    while i < a.len()
        invariant
            0 <= i <= a@.len(),
            a@.len() == b@.len(),
            forall|j: int| 0 <= j < i ==> a@[j] == b@[j],
        decreases a@.len() - i,
    {
        if a[i] != b[i] {
            return false;
        }
        i = i + 1;
    }
    proof {
        assert(a@ =~= b@);
    }
    true
}

/// The scene object one parsed face makes: its triangle (geometric
/// normals, no texture) under the material its name selects.
pub open spec fn object_of_face(f: FaceModel, mats: Seq<MtlModel>) -> crate::object::Object {
    let e1 = f.v1.minus_spec(f.v0);
    let e2 = f.v2.minus_spec(f.v0);
    crate::object::Object {
        surface: crate::surface::Surface::Tri(crate::surface::Triangle {
            vertex: f.v0,
            edge1: e1,
            edge2: e2,
            normals: (crate::surface::geometric_normal(e1, e2), crate::surface::geometric_normal(
                e1, e2), crate::surface::geometric_normal(e1, e2)),
            texture_coords: (crate::texture::TextureCoords { x: 0, y: 0 },
                crate::texture::TextureCoords { x: 0, y: 0 }, crate::texture::TextureCoords {
                x: 0,
                y: 0,
            }),
            orient_by_det: true,
        }),
        material: material_for_spec(mats, f.material),
    }
}

impl WavefrontObject {
    /// Turn every parsed face into a scene object under its material.
    pub fn into_objects(&self, materials: &Vec<WavefrontMaterial>) -> (r: Vec<
        crate::object::Object>)
        requires
            obj_model_wf(obj_view(*self)),
        ensures
            r@.len() == self.faces@.len(),
            forall|i: int|
                0 <= i < r@.len() ==> #[trigger] r@[i] == object_of_face(obj_view(
                    *self).faces[i], materials@.map_values(|m: WavefrontMaterial| mtl_view(m))),
            forall|i: int| 0 <= i < r@.len() ==> crate::object::object_wf(#[trigger] r@[i]),
    {
        let ghost mseq = materials@.map_values(|m: WavefrontMaterial| mtl_view(m));
        let mut out: Vec<crate::object::Object> = Vec::new();
        let mut i: usize = 0;
        while i < self.faces.len()
            invariant
                0 <= i <= self.faces@.len(),
                obj_model_wf(obj_view(*self)),
                mseq == materials@.map_values(|m: WavefrontMaterial| mtl_view(m)),
                out@.len() == i,
                forall|j: int|
                    0 <= j < i ==> #[trigger] out@[j] == object_of_face(obj_view(*self).faces[j],
                        mseq),
                forall|j: int| 0 <= j < i ==> crate::object::object_wf(#[trigger] out@[j]),
            decreases self.faces@.len() - i,
        {
            let f = self.faces.get(i).unwrap();
            proof {
                assert(obj_view(*self).faces[i as int] == face_view(self.faces@[i as int]));
            }
            let tri = crate::surface::Triangle::new(f.vertices.0, f.vertices.1, f.vertices.2,
                None, None);
            let mat = material_for(materials, f.material.as_slice());
            proof {
                lemma_material_for_wf(mseq, f.material@);
            }
            out.push(crate::object::Object {
                surface: crate::surface::Surface::Tri(tri),
                material: mat,
            });
            i = i + 1;
        }
        out
    }
}

/// Copy a byte slice into an owned vector.
fn slice_to_vec(s: &[u8]) -> (r: Vec<u8>)
    ensures
        r@ == s@,
{
    let mut out: Vec<u8> = Vec::new();
    let mut i: usize = 0;
    while i < s.len()
        invariant
            0 <= i <= s@.len(),
            out@ =~= s@.take(i as int),
        decreases s@.len() - i,
    {
        out.push(s[i]);
        proof {
            assert(s@.take(i + 1) =~= s@.take(i as int).push(s@[i as int]));
        }
        i = i + 1;
    }
    proof {
        assert(s@.take(i as int) =~= s@);
    }
    out
}

/// Drop the first byte of a slice.
fn slice_drop_first(s: &[u8]) -> (r: &[u8])
    requires
        s@.len() >= 1,
    ensures
        r@ == s@.drop_first(),
{
    let r = vstd::slice::slice_subrange(s, 1, s.len());
    proof {
        assert(r@ =~= s@.drop_first());
    }
    r
}

/// A subrange of a slice.
fn slice_range(s: &[u8], from: usize, to: usize) -> (r: &[u8])
    requires
        from <= to <= s@.len(),
    ensures
        r@ == s@.subrange(from as int, to as int),
{
    vstd::slice::slice_subrange(s, from, to)
}

} // verus!
