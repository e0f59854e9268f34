//! Exact decimal numbers for the conversion commands: a sign, an integer
//! mantissa and a power-of-ten scale. Parsing accepts what a plain float
//! parse would on the filtered input; arithmetic and rounding are exact over
//! the integers; rendering is canonical, without trailing fraction zeros.

use vstd::prelude::*;

use crate::text::{
    append_chars, dec_str, digits_val, index_of, is_digit_char, keep, padded_str, subvec,
    u128_to_chars, u128_to_padded_chars,
};

verus! {

/// `(-1)^neg * mant / 10^scale`, with `scale` at most [`MAX_FRAC_DIGITS`].
pub struct Decimal {
    pub neg: bool,
    pub mant: u128,
    pub scale: u32,
}

/// Fraction digits kept by the parser.
pub const MAX_FRAC_DIGITS: u32 = 6;

/// Integer parts reaching this power of ten are rejected as too large.
pub const MAX_INT_POW: u32 = 27;

pub open spec fn pow10(k: nat) -> nat
    decreases k,
{
    if k == 0 {
        1nat
    } else {
        10 * pow10((k - 1) as nat)
    }
}

pub proof fn lemma_pow10_values()
    ensures
        pow10(6) == 1000000u128 as nat,
        pow10(27) == 1000000000000000000000000000u128 as nat,
        pow10(33) == 1000000000000000000000000000000000u128 as nat,
{
    reveal_with_fuel(pow10, 34);
}

pub proof fn lemma_pow10_pos(a: nat)
    ensures
        pow10(a) >= 1,
    decreases a,
{
    if a > 0 {
        lemma_pow10_pos((a - 1) as nat);
    }
}

pub proof fn lemma_pow10_monotone(a: nat, b: nat)
    requires
        a <= b,
    ensures
        pow10(a) <= pow10(b),
        pow10(a) >= 1,
    decreases b,
{
    lemma_pow10_pos(a);
    if a < b {
        lemma_pow10_monotone(a, (b - 1) as nat);
    }
}

/// Exponentiation by ten with an executable bound.
pub fn pow10_u128(k: u32) -> (r: u128)
    requires
        k <= 33,
    ensures
        r == pow10(k as nat),
{
    proof {
        lemma_pow10_values();
    }
    let mut r: u128 = 1;
    let mut i: u32 = 0;
    while i < k
        invariant
            i <= k <= 33,
            r == pow10(i as nat),
        decreases k - i,
    {
        proof {
            lemma_pow10_monotone((i + 1) as nat, 33);
            lemma_pow10_values();
        }
        r = r * 10;
        i += 1;
    }
    r
}

/// Outcome of reading a number out of the filtered characters.
pub enum NumParse {
    /// A representable value.
    Value(Decimal),
    /// Shaped like a number, but with an integer part at or beyond
    /// `10^MAX_INT_POW`.
    TooBig,
    /// Not shaped like a number.
    Bad,
}

pub open spec fn is_dot(c: char) -> bool {
    c == '.'
}

pub open spec fn is_dash(c: char) -> bool {
    c == '-'
}

/// The shape a readable number must have after an optional leading dash:
/// nonempty, nothing but digits and dots, at most one dot, at least one
/// digit.
pub open spec fn number_body_ok(body: Seq<char>) -> bool {
    &&& body.len() > 0
    &&& forall|j: int| 0 <= j < body.len() ==> is_digit_char(#[trigger] body[j]) || is_dot(body[j])
    &&& forall|i: int, j: int|
        0 <= i < body.len() && 0 <= j < body.len() && is_dot(#[trigger] body[i]) && is_dot(
            #[trigger] body[j],
        ) ==> i == j
    &&& exists|j: int| 0 <= j < body.len() && is_digit_char(#[trigger] body[j])
}

/// What the decimal parser accepts and returns. A leading dash negates; the
/// body must be a well-shaped digit string with an optional dot. Only the
/// first `MAX_FRAC_DIGITS` fraction digits contribute.
pub open spec fn parse_decimal_spec(s: Seq<char>) -> NumParse {
    let neg = s.len() > 0 && s[0] == '-';
    let body = if neg {
        s.drop_first()
    } else {
        s
    };
    if !number_body_ok(body) {
        NumParse::Bad
    } else {
        let dot = index_of(body, '.');
        let int_digits = body.subrange(0, dot);
        let frac_all = if dot < body.len() {
            body.subrange(dot + 1, body.len() as int)
        } else {
            Seq::empty()
        };
        let frac = if frac_all.len() <= MAX_FRAC_DIGITS {
            frac_all
        } else {
            frac_all.subrange(0, MAX_FRAC_DIGITS as int)
        };
        if digits_val(int_digits) >= pow10(MAX_INT_POW as nat) {
            NumParse::TooBig
        } else {
            NumParse::Value(
                Decimal {
                    neg,
                    mant: (digits_val(int_digits) * pow10(frac.len()) + digits_val(
                        frac,
                    )) as u128,
                    scale: frac.len() as u32,
                },
            )
        }
    }
}

/// A parsed value is in range: the scale small and the mantissa under
/// `10^(MAX_INT_POW + MAX_FRAC_DIGITS)`.
pub open spec fn decimal_in_range(d: Decimal) -> bool {
    d.scale <= MAX_FRAC_DIGITS && (d.mant as nat) < pow10((MAX_INT_POW + MAX_FRAC_DIGITS) as nat)
}

pub proof fn lemma_parse_in_range(s: Seq<char>)
    ensures
        parse_decimal_spec(s) matches NumParse::Value(d) ==> decimal_in_range(d),
{
    if parse_decimal_spec(s) matches NumParse::Value(d) {
        let neg = s.len() > 0 && s[0] == '-';
        let body = if neg {
            s.drop_first()
        } else {
            s
        };
        let dot = index_of(body, '.');
        let int_digits = body.subrange(0, dot);
        let frac_all = if dot < body.len() {
            body.subrange(dot + 1, body.len() as int)
        } else {
            Seq::<char>::empty()
        };
        let frac = if frac_all.len() <= MAX_FRAC_DIGITS {
            frac_all
        } else {
            frac_all.subrange(0, MAX_FRAC_DIGITS as int)
        };
        let iv = digits_val(int_digits);
        let fv = digits_val(frac);
        lemma_pow10_monotone(frac.len(), MAX_FRAC_DIGITS as nat);
        lemma_digits_val_bound(frac);
        assert(iv * pow10(frac.len()) <= (pow10(MAX_INT_POW as nat) - 1) * pow10(
            MAX_FRAC_DIGITS as nat,
        )) by (nonlinear_arith)
            requires
                iv <= pow10(MAX_INT_POW as nat) - 1,
                pow10(frac.len()) <= pow10(MAX_FRAC_DIGITS as nat),
                iv >= 0,
                pow10(frac.len()) >= 1,
                pow10(MAX_FRAC_DIGITS as nat) >= 1,
        ;
        assert((pow10(MAX_INT_POW as nat) - 1) * pow10(MAX_FRAC_DIGITS as nat) + pow10(
            MAX_FRAC_DIGITS as nat,
        ) == pow10(MAX_INT_POW as nat) * pow10(MAX_FRAC_DIGITS as nat)) by (nonlinear_arith);
        lemma_pow10_mul(MAX_INT_POW as nat, MAX_FRAC_DIGITS as nat);
    }
}

pub proof fn lemma_pow10_mul(a: nat, b: nat)
    ensures
        pow10(a) * pow10(b) == pow10(a + b),
    decreases a,
{
    if a == 0 {
        assert(pow10(0) == 1);
        assert(1 * pow10(b) == pow10(b)) by (nonlinear_arith);
    } else {
        lemma_pow10_mul((a - 1) as nat, b);
        assert(pow10(a) * pow10(b) == 10 * (pow10((a - 1) as nat) * pow10(b))) by (nonlinear_arith)
            requires
                pow10(a) == 10 * pow10((a - 1) as nat),
        ;
        assert(pow10(a + b) == 10 * pow10((a + b - 1) as nat));
    }
}

/// A string of `n` digits writes a value below `10^n`.
pub proof fn lemma_digits_val_bound(s: Seq<char>)
    ensures
        digits_val(s) < pow10(s.len()),
    decreases s.len(),
{
    if s.len() > 0 {
        lemma_digits_val_bound(s.drop_last());
        assert(digits_val(s.drop_last()) * 10 <= (pow10(s.drop_last().len()) - 1) * 10)
            by (nonlinear_arith)
            requires
                digits_val(s.drop_last()) <= pow10(s.drop_last().len()) - 1,
        ;
    }
}

/// Accumulates the value of the digit characters `ds[0..upto]`, reporting
/// `None` as soon as the value reaches `10^MAX_INT_POW`.
fn digits_val_bounded(ds: &Vec<char>, upto: usize) -> (r: Option<u128>)
    requires
        upto <= ds@.len(),
        forall|j: int| 0 <= j < upto ==> is_digit_char(#[trigger] ds@[j]),
    ensures
        match r {
            Some(a) => a == digits_val(ds@.subrange(0, upto as int)) && a < pow10(
                MAX_INT_POW as nat,
            ),
            None => digits_val(ds@.subrange(0, upto as int)) >= pow10(MAX_INT_POW as nat),
        },
{
    proof {
        lemma_pow10_values();
    }
    let mut acc: u128 = 0;
    let mut j: usize = 0;
    proof {
        assert(ds@.subrange(0, 0) =~= Seq::<char>::empty());
    }
    while j < upto
        invariant
            upto <= ds@.len(),
            forall|k: int| 0 <= k < upto ==> is_digit_char(#[trigger] ds@[k]),
            j <= upto,
            acc == digits_val(ds@.subrange(0, j as int)),
            acc < pow10(MAX_INT_POW as nat),
            pow10(MAX_INT_POW as nat) == 1000000000000000000000000000u128 as nat,
        decreases upto - j,
    {
        let d = crate::text::digit_value(ds[j]);
        let next: u128 = acc * 10 + (d as u128);
        proof {
            let t = ds@.subrange(0, j + 1);
            assert(t.drop_last() =~= ds@.subrange(0, j as int));
            assert(t.last() == ds@[j as int]);
            assert(next == digits_val(t));
        }
        if next >= 1000000000000000000000000000u128 {
            proof {
                crate::text::lemma_digits_val_prefix_mono(ds@.subrange(0, upto as int), j + 1);
                assert(ds@.subrange(0, upto as int).subrange(0, j + 1) =~= ds@.subrange(0, j + 1));
            }
            return None;
        }
        acc = next;
        j += 1;
    }
    Some(acc)
}

/// Reads a decimal number out of `v` as [`parse_decimal_spec`] describes.
pub fn parse_decimal_chars(v: &Vec<char>) -> (r: NumParse)
    ensures
        r == parse_decimal_spec(v@),
        r matches NumParse::Value(d) ==> decimal_in_range(d),
{
    proof {
        lemma_pow10_values();
        lemma_parse_in_range(v@);
    }
    let neg = v.len() > 0 && v[0] == '-';
    let start: usize = if neg {
        1
    } else {
        0
    };
    let body = subvec(v, start, v.len());
    let ghost bv = if neg {
        v@.drop_first()
    } else {
        v@
    };
    proof {
        assert(body@ =~= bv);
    }
    // One scan settles the shape: every character a digit or the single
    // dot, at least one digit, and where the dot sits.
    let mut shape_ok = true;
    let mut has_digit = false;
    let mut first_dot: Option<usize> = None;
    let mut i: usize = 0;
    while i < body.len()
        invariant
            i <= body.len(),
            bv == body@,
            shape_ok ==> forall|j: int|
                0 <= j < i ==> is_digit_char(#[trigger] bv[j]) || is_dot(bv[j]),
            shape_ok ==> match first_dot {
                Some(k) => k < i && is_dot(bv[k as int]) && forall|j: int|
                    0 <= j < i && is_dot(#[trigger] bv[j]) ==> j == k,
                None => forall|j: int| 0 <= j < i ==> !is_dot(#[trigger] bv[j]),
            },
            !shape_ok ==> !number_body_ok(bv),
            has_digit == exists|j: int| 0 <= j < i && is_digit_char(#[trigger] bv[j]),
        decreases body.len() - i,
    {
        let c = body[i];
        if '0' <= c && c <= '9' {
            has_digit = true;
        } else if c == '.' {
            match first_dot {
                None => {
                    first_dot = Some(i);
                },
                Some(k) => {
                    proof {
                        if shape_ok {
                            assert(is_dot(bv[k as int]) && is_dot(bv[i as int]) && k != i);
                            assert(!number_body_ok(bv));
                        }
                    }
                    shape_ok = false;
                },
            }
        } else {
            proof {
                assert(!is_digit_char(bv[i as int]) && !is_dot(bv[i as int]));
                assert(!number_body_ok(bv));
            }
            shape_ok = false;
        }
        i += 1;
    }
    if !(shape_ok && has_digit && body.len() > 0) {
        proof {
            assert(!number_body_ok(bv));
        }
        return NumParse::Bad;
    }
    proof {
        assert(number_body_ok(bv));
    }
    let dot: usize = match first_dot {
        Some(k) => k,
        None => body.len(),
    };
    proof {
        crate::text::lemma_index_of(bv, '.');
        let io = crate::text::index_of(bv, '.');
        if io < dot {
            assert(is_dot(bv[io]));
        }
        if io > dot {
            assert(dot < bv.len() && is_dot(bv[dot as int]));
        }
        assert(io == dot);
    }
    let ghost int_digits = bv.subrange(0, dot as int);
    proof {
        assert forall|j: int| 0 <= j < dot implies is_digit_char(#[trigger] bv[j]) by {
            crate::text::lemma_index_of(bv, '.');
        }
        assert forall|j: int| 0 <= j < dot implies is_digit_char(#[trigger] body@[j]) by {}
    }
    let int_val = match digits_val_bounded(&body, dot) {
        Some(a) => a,
        None => {
            proof {
                assert(bv.subrange(0, dot as int) =~= body@.subrange(0, dot as int));
            }
            return NumParse::TooBig;
        },
    };
    proof {
        assert(bv.subrange(0, dot as int) =~= body@.subrange(0, dot as int));
    }
    // Fraction digits, capped.
    let frac_len: usize = if dot < body.len() {
        let avail = body.len() - dot - 1;
        if avail > 6 {
            6
        } else {
            avail
        }
    } else {
        0
    };
    let ghost frac_all = if dot < bv.len() {
        bv.subrange(dot + 1, bv.len() as int)
    } else {
        Seq::<char>::empty()
    };
    let ghost frac = if frac_all.len() <= MAX_FRAC_DIGITS {
        frac_all
    } else {
        frac_all.subrange(0, MAX_FRAC_DIGITS as int)
    };
    proof {
        assert(frac.len() == frac_len);
        assert forall|j: int| 0 <= j < frac.len() implies is_digit_char(#[trigger] frac[j]) by {
            assert(frac[j] == bv[dot + 1 + j]);
            assert(is_dot(bv[dot as int]));
        }
    }
    let mut facc: u128 = 0;
    let mut j: usize = 0;
    proof {
        assert(frac.subrange(0, 0) =~= Seq::<char>::empty());
        lemma_digits_val_bound(frac);
        lemma_pow10_monotone(frac.len(), MAX_FRAC_DIGITS as nat);
    }
    while j < frac_len
        invariant
            frac.len() == frac_len,
            frac_len <= 6,
            frac_len == 0 || dot + 1 + frac_len <= body.len(),
            bv == body@,
            forall|k: int| 0 <= k < frac.len() ==> frac[k] == bv[dot + 1 + k],
            forall|k: int| 0 <= k < frac.len() ==> is_digit_char(#[trigger] frac[k]),
            j <= frac_len,
            facc == digits_val(frac.subrange(0, j as int)),
            facc < 1000000u128,
        decreases frac_len - j,
    {
        proof {
            lemma_digits_val_bound(frac.subrange(0, j + 1));
            lemma_pow10_monotone((j + 1) as nat, MAX_FRAC_DIGITS as nat);
            lemma_pow10_values();
        }
        let d = crate::text::digit_value(body[dot + 1 + j]);
        proof {
            let t = frac.subrange(0, j + 1);
            assert(t.drop_last() =~= frac.subrange(0, j as int));
            assert(t.last() == frac[j as int]);
            assert(frac[j as int] == bv[dot + 1 + j]);
        }
        facc = facc * 10 + (d as u128);
        j += 1;
    }
    proof {
        assert(frac.subrange(0, frac.len() as int) =~= frac);
    }
    let p = pow10_u128(frac_len as u32);
    proof {
        lemma_pow10_monotone(frac_len as nat, MAX_FRAC_DIGITS as nat);
        assert(int_val * p <= (1000000000000000000000000000u128 - 1) * 1000000u128)
            by (nonlinear_arith)
            requires
                int_val <= 1000000000000000000000000000u128 - 1,
                p <= 1000000u128,
                int_val >= 0,
                p >= 1,
        ;
    }
    let mant: u128 = int_val * p + facc;
    NumParse::Value(Decimal { neg, mant, scale: frac_len as u32 })
}

/// Digits of the fraction part with trailing zeros removed.
pub open spec fn strip_zeros(s: Seq<char>) -> Seq<char>
    decreases s.len(),
{
    if s.len() > 0 && s.last() == '0' {
        strip_zeros(s.drop_last())
    } else {
        s
    }
}

/// Canonical rendering: optional sign, integer part without leading zeros,
/// and the fraction digits without trailing zeros, after a dot only when any
/// remain. A negative sign is kept even for a zero mantissa.
pub open spec fn dec_canon(d: Decimal) -> Seq<char> {
    let ip = (d.mant as nat) / pow10(d.scale as nat);
    let fp = (d.mant as nat) % pow10(d.scale as nat);
    let fs = strip_zeros(padded_str(fp, d.scale as nat));
    (if d.neg {
        seq!['-']
    } else {
        Seq::<char>::empty()
    }) + dec_str(ip) + (if fs.len() == 0 {
        Seq::<char>::empty()
    } else {
        seq!['.'] + fs
    })
}

/// Renders a decimal canonically.
pub fn decimal_canon_chars(d: &Decimal) -> (r: Vec<char>)
    requires
        d.scale <= MAX_FRAC_DIGITS,
    ensures
        r@ == dec_canon(*d),
{
    proof {
        lemma_pow10_monotone(d.scale as nat, 33);
        lemma_pow10_pos(d.scale as nat);
    }
    let p = pow10_u128(d.scale);
    let ip = d.mant / p;
    let fp = d.mant % p;
    let ip_chars = u128_to_chars(ip);
    let mut fs = u128_to_padded_chars(fp, d.scale as usize);
    while fs.len() > 0 && fs[fs.len() - 1] == '0'
        invariant
            strip_zeros(fs@) == strip_zeros(padded_str(fp as nat, d.scale as nat)),
        decreases fs.len(),
    {
        let ghost pre = fs@;
        fs.pop();
        proof {
            assert(fs@ =~= pre.drop_last());
        }
    }
    proof {
        assert(strip_zeros(fs@) == fs@);
    }
    let mut out: Vec<char> = Vec::new();
    if d.neg {
        out.push('-');
    }
    append_chars(&mut out, &ip_chars);
    if fs.len() > 0 {
        out.push('.');
        append_chars(&mut out, &fs);
    }
    proof {
        assert(out@ =~= dec_canon(*d));
    }
    out
}

/// Rounding to the nearest integer, ties away from zero — what a float
/// `round` does.
pub open spec fn round_half_away(n: int, d: int) -> int {
    if n >= 0 {
        (2 * n + d) / (2 * d)
    } else {
        -((2 * (-n) + d) / (2 * d))
    }
}

pub fn round_half_away_i128(n: i128, d: i128) -> (r: i128)
    requires
        d > 0,
        d <= 100000000i128,
        -10000000000000000000000000000000000000i128 <= n
            <= 10000000000000000000000000000000000000i128,
    ensures
        r == round_half_away(n as int, d as int),
{
    let a: i128 = if n >= 0 {
        n
    } else {
        -n
    };
    let q = (2 * a + d) / (2 * d);
    proof {
        assert(q >= 0) by (nonlinear_arith)
            requires
                a >= 0,
                d > 0,
                q == (2 * a + d) / (2 * d),
        ;
        assert(q <= 2 * a + d) by (nonlinear_arith)
            requires
                a >= 0,
                d > 0,
                q == (2 * a + d) / (2 * d),
        ;
    }
    if n >= 0 {
        q
    } else {
        -q
    }
}

/// Rounding to the nearest integer, ties to even — what fixed-precision
/// float formatting does.
pub open spec fn round_half_even(n: int, d: int) -> int {
    let q = n / d;
    let rem = n % d;
    if 2 * rem > d {
        q + 1
    } else if 2 * rem == d {
        if q % 2 == 1 {
            q + 1
        } else {
            q
        }
    } else {
        q
    }
}

pub fn round_half_even_u128(n: u128, d: u128) -> (r: u128)
    requires
        d > 0,
        d <= 100000000u128,
        n <= 100000000000000000000000000000000000000u128,
    ensures
        r == round_half_even(n as int, d as int),
{
    let q = n / d;
    let rem = n % d;
    proof {
        assert(q <= n) by (nonlinear_arith)
            requires
                d > 0,
                q == n / d,
                n >= 0,
        ;
    }
    if 2 * rem > d {
        q + 1
    } else if 2 * rem == d {
        if q % 2 == 1 {
            q + 1
        } else {
            q
        }
    } else {
        q
    }
}

/// The characters a signed number is read from: digits, dots and dashes.
pub open spec fn signed_number_chars(s: Seq<char>) -> Seq<char> {
    keep(s, |c: char| is_digit_char(c) || is_dot(c) || is_dash(c))
}

pub proof fn lemma_signed_number_chars_step(s: Seq<char>)
    requires
        s.len() > 0,
    ensures
        signed_number_chars(s) == signed_number_chars(s.drop_last()) + (if is_digit_char(s.last())
            || is_dot(s.last()) || is_dash(s.last()) {
            seq![s.last()]
        } else {
            Seq::<char>::empty()
        }),
{
}

/// Keeps the digits, dots and dashes of `v`, in order.
pub fn filter_signed_number_chars(v: &Vec<char>) -> (r: Vec<char>)
    ensures
        r@ == signed_number_chars(v@),
{
    let mut r: Vec<char> = Vec::new();
    let mut i: usize = 0;
    proof {
        assert(v@.subrange(0, 0) =~= Seq::<char>::empty());
    }
    while i < v.len()
        invariant
            i <= v.len(),
            r@ == signed_number_chars(v@.subrange(0, i as int)),
        decreases v.len() - i,
    {
        let c = v[i];
        if ('0' <= c && c <= '9') || c == '.' || c == '-' {
            r.push(c);
        }
        i += 1;
        proof {
            let t = v@.subrange(0, i as int);
            assert(t.drop_last() =~= v@.subrange(0, i - 1));
            assert(t.last() == v@[i - 1]);
            lemma_signed_number_chars_step(t);
            if is_digit_char(t.last()) || is_dot(t.last()) || is_dash(t.last()) {
                assert(r@ =~= signed_number_chars(t.drop_last()) + seq![t.last()]);
            } else {
                assert(r@ =~= signed_number_chars(t.drop_last()) + Seq::<char>::empty());
            }
        }
    }
    proof {
        assert(v@.subrange(0, v@.len() as int) =~= v@);
    }
    r
}

/// The characters an unsigned number is read from: digits and dots.
pub open spec fn unsigned_number_chars(s: Seq<char>) -> Seq<char> {
    keep(s, |c: char| is_digit_char(c) || is_dot(c))
}

pub proof fn lemma_unsigned_number_chars_step(s: Seq<char>)
    requires
        s.len() > 0,
    ensures
        unsigned_number_chars(s) == unsigned_number_chars(s.drop_last()) + (if is_digit_char(
            s.last(),
        ) || is_dot(s.last()) {
            seq![s.last()]
        } else {
            Seq::<char>::empty()
        }),
{
}

/// Keeps the digits and dots of `v`, in order.
pub fn filter_unsigned_number_chars(v: &Vec<char>) -> (r: Vec<char>)
    ensures
        r@ == unsigned_number_chars(v@),
{
    let mut r: Vec<char> = Vec::new();
    let mut i: usize = 0;
    proof {
        assert(v@.subrange(0, 0) =~= Seq::<char>::empty());
    }
    while i < v.len()
        invariant
            i <= v.len(),
            r@ == unsigned_number_chars(v@.subrange(0, i as int)),
        decreases v.len() - i,
    {
        let c = v[i];
        if ('0' <= c && c <= '9') || c == '.' {
            r.push(c);
        }
        i += 1;
        proof {
            let t = v@.subrange(0, i as int);
            assert(t.drop_last() =~= v@.subrange(0, i - 1));
            assert(t.last() == v@[i - 1]);
            lemma_unsigned_number_chars_step(t);
            if is_digit_char(t.last()) || is_dot(t.last()) {
                assert(r@ =~= unsigned_number_chars(t.drop_last()) + seq![t.last()]);
            } else {
                assert(r@ =~= unsigned_number_chars(t.drop_last()) + Seq::<char>::empty());
            }
        }
    }
    proof {
        assert(v@.subrange(0, v@.len() as int) =~= v@);
    }
    r
}


pub proof fn lemma_unsigned_number_chars_all(s: Seq<char>)
    ensures
        forall|i: int|
            0 <= i < unsigned_number_chars(s).len() ==> is_digit_char(
                #[trigger] unsigned_number_chars(s)[i],
            ) || is_dot(unsigned_number_chars(s)[i]),
{
    crate::text::lemma_keep_all(s, |c: char| is_digit_char(c) || is_dot(c));
}

/// Magnitude form of ties-away rounding: `(2a + d) / (2d)`, which is
/// `|x|` rounded to the nearest integer with halves up, for `x = a/d`.
pub fn round_half_away_mag(a: u128, d: u128) -> (r: u128)
    requires
        d > 0,
        d <= 100000000u128,
        a <= 10000000000000000000000000000000000000u128,
    ensures
        r as int == (2 * (a as int) + d as int) / (2 * (d as int)),
{
    (2 * a + d) / (2 * d)
}

/// The Celsius reading of a Fahrenheit decimal, in hundredths rounded ties
/// away from zero, carrying the sign of the exact difference so that a
/// negative value rounding to zero still renders with its sign.
pub open spec fn f_to_c_spec(d: Decimal) -> Decimal {
    let p = pow10(d.scale as nat) as int;
    let sm = if d.neg {
        -(d.mant as int)
    } else {
        d.mant as int
    };
    let n = (sm - 32 * p) * 500;
    let r100 = round_half_away(n, 9 * p);
    Decimal {
        neg: n < 0,
        mant: (if r100 < 0 {
            -r100
        } else {
            r100
        }) as u128,
        scale: 2,
    }
}

/// The Fahrenheit reading of a Celsius decimal, likewise in hundredths.
pub open spec fn c_to_f_spec(d: Decimal) -> Decimal {
    let p = pow10(d.scale as nat) as int;
    let sm = if d.neg {
        -(d.mant as int)
    } else {
        d.mant as int
    };
    let n = 180 * sm + 3200 * p;
    let r100 = round_half_away(n, p);
    Decimal {
        neg: n < 0,
        mant: (if r100 < 0 {
            -r100
        } else {
            r100
        }) as u128,
        scale: 2,
    }
}

pub fn fahrenheit_to_celsius(d: &Decimal) -> (r: Decimal)
    requires
        decimal_in_range(*d),
    ensures
        r == f_to_c_spec(*d),
        r.scale == 2,
{
    proof {
        lemma_pow10_values();
        lemma_pow10_monotone(d.scale as nat, MAX_FRAC_DIGITS as nat);
    }
    let p: i128 = pow10_u128(d.scale) as i128;
    let m: i128 = d.mant as i128;
    let sm: i128 = if d.neg {
        -m
    } else {
        m
    };
    let n: i128 = (sm - 32 * p) * 500;
    let a: u128 = if n < 0 {
        (-n) as u128
    } else {
        n as u128
    };
    let mag = round_half_away_mag(a, (9 * p) as u128);
    proof {
        let ghost spec_r = round_half_away(n as int, 9 * (p as int));
        if n >= 0 {
            assert(mag as int == spec_r);
        } else {
            assert(mag as int == -spec_r);
        }
    }
    Decimal { neg: n < 0, mant: mag, scale: 2 }
}

pub fn celsius_to_fahrenheit(d: &Decimal) -> (r: Decimal)
    requires
        decimal_in_range(*d),
    ensures
        r == c_to_f_spec(*d),
        r.scale == 2,
{
    proof {
        lemma_pow10_values();
        lemma_pow10_monotone(d.scale as nat, MAX_FRAC_DIGITS as nat);
    }
    let p: i128 = pow10_u128(d.scale) as i128;
    let m: i128 = d.mant as i128;
    let sm: i128 = if d.neg {
        -m
    } else {
        m
    };
    let n: i128 = 180 * sm + 3200 * p;
    let a: u128 = if n < 0 {
        (-n) as u128
    } else {
        n as u128
    };
    let mag = round_half_away_mag(a, p as u128);
    proof {
        let ghost spec_r = round_half_away(n as int, p as int);
        if n >= 0 {
            assert(mag as int == spec_r);
        } else {
            assert(mag as int == -spec_r);
        }
    }
    Decimal { neg: n < 0, mant: mag, scale: 2 }
}

/// Sixty-four times the value, rounded to the nearest whole number with
/// ties to even — the item count of a stack count.
pub open spec fn times64_spec(d: Decimal) -> int {
    round_half_even(64 * (d.mant as int), pow10(d.scale as nat) as int)
}

pub fn decimal_times64(d: &Decimal) -> (r: u128)
    requires
        decimal_in_range(*d),
        !d.neg,
    ensures
        r as int == times64_spec(*d),
{
    proof {
        lemma_pow10_values();
        lemma_pow10_monotone(d.scale as nat, MAX_FRAC_DIGITS as nat);
        lemma_pow10_pos(d.scale as nat);
    }
    let p = pow10_u128(d.scale);
    round_half_even_u128(64 * d.mant, p)
}

/// The value is exactly one.
pub open spec fn decimal_is_one(d: Decimal) -> bool {
    !d.neg && d.mant as nat == pow10(d.scale as nat)
}

pub fn decimal_eq_one(d: &Decimal) -> (r: bool)
    requires
        d.scale <= MAX_FRAC_DIGITS,
    ensures
        r == decimal_is_one(*d),
{
    let p = pow10_u128(d.scale);
    !d.neg && d.mant == p
}


} // verus!
