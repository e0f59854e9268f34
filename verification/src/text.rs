//! Character-level helpers shared by the whole crate: conversions between
//! strings and character vectors, ASCII case mapping, prefix tests, token
//! splitting, decimal rendering of integers, and fixed-pattern substitution.

use vstd::prelude::*;
use vstd::string::StrSliceExecFns;

verus! {

/// Copies the characters of a string slice into a vector.
pub fn str_to_chars(s: &str) -> (r: Vec<char>)
    ensures
        r@ == s@,
{
    let n: usize = s.unicode_len();
    let mut r: Vec<char> = Vec::new();
    let mut i: usize = 0;
    while i < n
        invariant
            n == s@.len(),
            i <= n,
            r@ == s@.subrange(0, i as int),
        decreases n - i,
    {
        r.push(s.get_char(i));
        i += 1;
        proof {
            assert(r@ =~= s@.subrange(0, i as int));
        }
    }
    proof {
        assert(r@ =~= s@);
    }
    r
}

/// Relies on `String`'s `FromIterator<char>` implementation: collecting an
/// iterator of characters yields the string of exactly those characters.
#[verifier::external_body]
pub fn chars_to_string(v: &Vec<char>) -> (r: String)
    ensures
        r@ == v@,
{
    v.iter().collect()
}

/// ASCII lower-case image of one character; anything outside `A`..`Z` is kept.
pub open spec fn lower_char(c: char) -> char {
    if 'A' <= c && c <= 'Z' {
        (c as u8 + 32) as char
    } else {
        c
    }
}

/// ASCII upper-case image of one character; anything outside `a`..`z` is kept.
pub open spec fn upper_char(c: char) -> char {
    if 'a' <= c && c <= 'z' {
        (c as u8 - 32) as char
    } else {
        c
    }
}

pub open spec fn lower_chars(s: Seq<char>) -> Seq<char> {
    s.map_values(|c: char| lower_char(c))
}

pub open spec fn upper_chars(s: Seq<char>) -> Seq<char> {
    s.map_values(|c: char| upper_char(c))
}

pub fn to_lower_char(c: char) -> (r: char)
    ensures
        r == lower_char(c),
{
    if 'A' <= c && c <= 'Z' {
        (c as u8 + 32) as char
    } else {
        c
    }
}

pub fn to_upper_char(c: char) -> (r: char)
    ensures
        r == upper_char(c),
{
    if 'a' <= c && c <= 'z' {
        (c as u8 - 32) as char
    } else {
        c
    }
}

pub fn to_lower_chars(v: &Vec<char>) -> (r: Vec<char>)
    ensures
        r@ == lower_chars(v@),
{
    let mut r: Vec<char> = Vec::new();
    let mut i: usize = 0;
    while i < v.len()
        invariant
            i <= v@.len(),
            r@ == lower_chars(v@.subrange(0, i as int)),
        decreases v@.len() - i,
    {
        r.push(to_lower_char(v[i]));
        i += 1;
        proof {
            assert(r@ =~= lower_chars(v@.subrange(0, i as int)));
        }
    }
    proof {
        assert(v@.subrange(0, v@.len() as int) =~= v@);
    }
    r
}

/// `p` is a prefix of `s`.
pub open spec fn has_prefix(s: Seq<char>, p: Seq<char>) -> bool {
    p.len() <= s.len() && s.subrange(0, p.len() as int) == p
}

/// Whether `p` occurs in `v` starting at index `at`.
pub open spec fn matches_at(s: Seq<char>, p: Seq<char>, at: int) -> bool {
    at + p.len() <= s.len() && s.subrange(at, at + p.len()) == p
}

pub fn chars_match_at(v: &Vec<char>, p: &[char], at: usize) -> (r: bool)
    requires
        at <= v@.len(),
    ensures
        r == matches_at(v@, p@, at as int),
{
    if v.len() - at < p.len() {
        return false;
    }
    let mut i: usize = 0;
    while i < p.len()
        invariant
            at + p.len() <= v.len(),
            i <= p@.len(),
            forall|j: int| 0 <= j < i ==> v@[at + j] == p@[j],
        decreases p@.len() - i,
    {
        if v[at + i] != p[i] {
            proof {
                assert(v@.subrange(at as int, at + p@.len())[i as int] == v@[at + i]);
            }
            return false;
        }
        i += 1;
    }
    proof {
        assert(v@.subrange(at as int, at + p@.len()) =~= p@);
    }
    true
}

pub fn chars_have_prefix(v: &Vec<char>, p: &[char]) -> (r: bool)
    ensures
        r == has_prefix(v@, p@),
{
    let r = chars_match_at(v, p, 0);
    proof {
        if p@.len() <= v@.len() {
            assert(v@.subrange(0, p@.len() as int) == v@.subrange(0int, 0 + p@.len() as int));
        }
    }
    r
}

/// Index of the first occurrence of `c` in `s`, or the length of `s`.
pub open spec fn index_of(s: Seq<char>, c: char) -> int
    decreases s.len(),
{
    if s.len() == 0 {
        0
    } else if s[0] == c {
        0
    } else {
        1 + index_of(s.drop_first(), c)
    }
}

pub proof fn lemma_index_of(s: Seq<char>, c: char)
    ensures
        0 <= index_of(s, c) <= s.len(),
        index_of(s, c) < s.len() ==> s[index_of(s, c)] == c,
        forall|j: int| 0 <= j < index_of(s, c) ==> s[j] != c,
    decreases s.len(),
{
    if s.len() > 0 && s[0] != c {
        lemma_index_of(s.drop_first(), c);
        let k = index_of(s.drop_first(), c);
        if k < s.drop_first().len() {
            assert(s[1 + k] == s.drop_first()[k]);
        }
        assert forall|j: int| 0 <= j < index_of(s, c) implies s[j] != c by {
            if j > 0 {
                assert(s.drop_first()[j - 1] == s[j]);
            }
        }
    }
}

pub fn find_char(v: &Vec<char>, c: char) -> (r: usize)
    ensures
        r == index_of(v@, c),
{
    let mut i: usize = 0;
    proof {
        lemma_index_of(v@, c);
    }
    while i < v.len()
        invariant
            i <= v@.len(),
            forall|j: int| 0 <= j < i ==> v@[j] != c,
            index_of(v@, c) >= i,
        decreases v@.len() - i,
    {
        if v[i] == c {
            proof {
                lemma_index_of(v@, c);
            }
            return i;
        }
        i += 1;
        proof {
            lemma_index_of_step(v@, c, i as int);
        }
    }
    proof {
        lemma_index_of(v@, c);
    }
    i
}

proof fn lemma_index_of_step(s: Seq<char>, c: char, i: int)
    requires
        0 <= i <= s.len(),
        forall|j: int| 0 <= j < i ==> s[j] != c,
    ensures
        index_of(s, c) >= i,
    decreases i,
{
    if i == 0 {
        lemma_index_of(s, c);
    } else {
        assert(s[0] != c);
        assert forall|j: int| 0 <= j < i - 1 implies s.drop_first()[j] != c by {
            assert(s.drop_first()[j] == s[j + 1]);
        }
        lemma_index_of_step(s.drop_first(), c, i - 1);
    }
}

/// Copies `v[from..to]`.
pub fn subvec(v: &Vec<char>, from: usize, to: usize) -> (r: Vec<char>)
    requires
        from <= to <= v@.len(),
    ensures
        r@ == v@.subrange(from as int, to as int),
{
    let mut r: Vec<char> = Vec::new();
    let mut i: usize = from;
    while i < to
        invariant
            from <= i <= to <= v@.len(),
            r@ == v@.subrange(from as int, i as int),
        decreases to - i,
    {
        r.push(v[i]);
        i += 1;
        proof {
            assert(r@ =~= v@.subrange(from as int, i as int));
        }
    }
    r
}

/// Appends all of `src` to `out`.
pub fn append_chars(out: &mut Vec<char>, src: &Vec<char>)
    ensures
        final(out)@ == old(out)@ + src@,
{
    let ghost pre = out@;
    let mut i: usize = 0;
    while i < src.len()
        invariant
            i <= src.len(),
            out@ == pre + src@.subrange(0, i as int),
        decreases src.len() - i,
    {
        out.push(src[i]);
        i += 1;
        proof {
            assert(out@ =~= pre + src@.subrange(0, i as int));
        }
    }
    proof {
        assert(src@.subrange(0, src@.len() as int) =~= src@);
    }
}

/// The decimal digit character for `d`.
pub open spec fn digit_char(d: int) -> char {
    if d == 0 {
        '0'
    } else if d == 1 {
        '1'
    } else if d == 2 {
        '2'
    } else if d == 3 {
        '3'
    } else if d == 4 {
        '4'
    } else if d == 5 {
        '5'
    } else if d == 6 {
        '6'
    } else if d == 7 {
        '7'
    } else if d == 8 {
        '8'
    } else {
        '9'
    }
}

/// Decimal rendering of a natural number, without leading zeros.
pub open spec fn dec_str(n: nat) -> Seq<char>
    decreases n,
{
    if n < 10 {
        seq![digit_char(n as int)]
    } else {
        dec_str(n / 10).push(digit_char((n % 10) as int))
    }
}

fn digit_to_char(d: u128) -> (r: char)
    requires
        d < 10,
    ensures
        r == digit_char(d as int),
{
    if d == 0 {
        '0'
    } else if d == 1 {
        '1'
    } else if d == 2 {
        '2'
    } else if d == 3 {
        '3'
    } else if d == 4 {
        '4'
    } else if d == 5 {
        '5'
    } else if d == 6 {
        '6'
    } else if d == 7 {
        '7'
    } else if d == 8 {
        '8'
    } else {
        '9'
    }
}

pub fn u128_to_chars(n: u128) -> (r: Vec<char>)
    ensures
        r@ == dec_str(n as nat),
    decreases n,
{
    if n < 10 {
        let mut r: Vec<char> = Vec::new();
        r.push(digit_to_char(n));
        proof {
            assert(r@ =~= dec_str(n as nat));
        }
        r
    } else {
        let mut r = u128_to_chars(n / 10);
        r.push(digit_to_char(n % 10));
        r
    }
}

/// Fixed-width decimal rendering, zero-padded on the left.
pub open spec fn padded_str(n: nat, width: nat) -> Seq<char>
    decreases width,
{
    if width == 0 {
        Seq::empty()
    } else {
        padded_str(n / 10, (width - 1) as nat).push(digit_char((n % 10) as int))
    }
}

pub fn u128_to_padded_chars(n: u128, width: usize) -> (r: Vec<char>)
    ensures
        r@ == padded_str(n as nat, width as nat),
    decreases width,
{
    if width == 0 {
        let r: Vec<char> = Vec::new();
        proof {
            assert(r@ =~= padded_str(n as nat, width as nat));
        }
        r
    } else {
        let mut r = u128_to_padded_chars(n / 10, width - 1);
        r.push(digit_to_char(n % 10));
        r
    }
}

/// Decimal rendering of a signed number: a minus sign for negatives.
pub open spec fn dec_str_signed(n: int) -> Seq<char> {
    if n < 0 {
        seq!['-'] + dec_str((-n) as nat)
    } else {
        dec_str(n as nat)
    }
}

pub fn i64_to_chars(n: i64) -> (r: Vec<char>)
    ensures
        r@ == dec_str_signed(n as int),
{
    let wide: i128 = n as i128;
    if wide < 0 {
        let mut r: Vec<char> = Vec::new();
        r.push('-');
        let ds = u128_to_chars((-wide) as u128);
        let mut i: usize = 0;
        while i < ds.len()
            invariant
                i <= ds@.len(),
                r@ == seq!['-'] + ds@.subrange(0, i as int),
            decreases ds@.len() - i,
        {
            r.push(ds[i]);
            i += 1;
            proof {
                assert(r@ =~= seq!['-'] + ds@.subrange(0, i as int));
            }
        }
        proof {
            assert(ds@.subrange(0, ds@.len() as int) =~= ds@);
        }
        r
    } else {
        u128_to_chars(wide as u128)
    }
}

pub open spec fn is_digit_char(c: char) -> bool {
    '0' <= c && c <= '9'
}

/// Numeric value of a decimal digit character; anything else counts zero.
pub open spec fn char_digit(c: char) -> int {
    if c == '1' {
        1
    } else if c == '2' {
        2
    } else if c == '3' {
        3
    } else if c == '4' {
        4
    } else if c == '5' {
        5
    } else if c == '6' {
        6
    } else if c == '7' {
        7
    } else if c == '8' {
        8
    } else if c == '9' {
        9
    } else {
        0
    }
}

pub fn digit_value(c: char) -> (d: u32)
    requires
        is_digit_char(c),
    ensures
        d == char_digit(c),
        d < 10,
{
    if c == '1' {
        1
    } else if c == '2' {
        2
    } else if c == '3' {
        3
    } else if c == '4' {
        4
    } else if c == '5' {
        5
    } else if c == '6' {
        6
    } else if c == '7' {
        7
    } else if c == '8' {
        8
    } else if c == '9' {
        9
    } else {
        0
    }
}

/// The subsequence of characters satisfying `pred`, in order.
pub open spec fn keep(s: Seq<char>, pred: spec_fn(char) -> bool) -> Seq<char>
    decreases s.len(),
{
    if s.len() == 0 {
        Seq::empty()
    } else {
        keep(s.drop_last(), pred) + if pred(s.last()) {
            seq![s.last()]
        } else {
            Seq::empty()
        }
    }
}

pub proof fn lemma_keep_all(s: Seq<char>, pred: spec_fn(char) -> bool)
    ensures
        forall|i: int| 0 <= i < keep(s, pred).len() ==> pred(#[trigger] keep(s, pred)[i]),
    decreases s.len(),
{
    if s.len() > 0 {
        lemma_keep_all(s.drop_last(), pred);
        assert forall|i: int| 0 <= i < keep(s, pred).len() implies pred(
            #[trigger] keep(s, pred)[i],
        ) by {
            if i < keep(s.drop_last(), pred).len() {
                assert(keep(s, pred)[i] == keep(s.drop_last(), pred)[i]);
            }
        }
    }
}

/// The decimal digits of `s`, in order.
pub open spec fn digits_of(s: Seq<char>) -> Seq<char> {
    keep(s, |c: char| is_digit_char(c))
}

pub proof fn lemma_digits_of_step(s: Seq<char>)
    requires
        s.len() > 0,
    ensures
        digits_of(s) == digits_of(s.drop_last()) + (if is_digit_char(s.last()) {
            seq![s.last()]
        } else {
            Seq::<char>::empty()
        }),
{
}

pub proof fn lemma_digits_of_all(s: Seq<char>)
    ensures
        forall|i: int| 0 <= i < digits_of(s).len() ==> is_digit_char(#[trigger] digits_of(s)[i]),
{
    lemma_keep_all(s, |c: char| is_digit_char(c));
}

/// Keeps the decimal digits of `v`, in order.
pub fn filter_digits(v: &Vec<char>) -> (r: Vec<char>)
    ensures
        r@ == digits_of(v@),
{
    let mut r: Vec<char> = Vec::new();
    let mut i: usize = 0;
    proof {
        assert(v@.subrange(0, 0) =~= Seq::<char>::empty());
    }
    while i < v.len()
        invariant
            i <= v.len(),
            r@ == digits_of(v@.subrange(0, i as int)),
        decreases v.len() - i,
    {
        let c = v[i];
        if '0' <= c && c <= '9' {
            r.push(c);
        }
        i += 1;
        proof {
            let t = v@.subrange(0, i as int);
            assert(t.drop_last() =~= v@.subrange(0, i - 1));
            assert(t.last() == v@[i - 1]);
            lemma_digits_of_step(t);
            if is_digit_char(t.last()) {
                assert(r@ =~= digits_of(t.drop_last()) + seq![t.last()]);
            } else {
                assert(r@ =~= digits_of(t.drop_last()) + Seq::<char>::empty());
            }
        }
    }
    proof {
        assert(v@.subrange(0, v@.len() as int) =~= v@);
    }
    r
}

/// The number written by a string of decimal digits, leading zeros allowed.
pub open spec fn digits_val(s: Seq<char>) -> nat
    decreases s.len(),
{
    if s.len() == 0 {
        0
    } else {
        (digits_val(s.drop_last()) * 10 + char_digit(s.last())) as nat
    }
}

pub proof fn lemma_digits_val_prefix_mono(s: Seq<char>, i: int)
    requires
        0 <= i <= s.len(),
    ensures
        digits_val(s.subrange(0, i)) <= digits_val(s),
    decreases s.len() - i,
{
    if i < s.len() {
        let t = s.subrange(0, i + 1);
        assert(t.drop_last() =~= s.subrange(0, i));
        assert(digits_val(s.subrange(0, i)) <= digits_val(t));
        lemma_digits_val_prefix_mono(s, i + 1);
        assert(s.subrange(0, s.len() as int) =~= s);
    } else {
        assert(s.subrange(0, i) =~= s);
    }
}

/// The value of a digit string, when it fits in `i32`; `None` reports a
/// value beyond `i32::MAX`, as the ordinary 32-bit parse would.
pub fn parse_i32_digits(ds: &Vec<char>) -> (r: Option<i32>)
    requires
        forall|i: int| 0 <= i < ds@.len() ==> is_digit_char(#[trigger] ds@[i]),
    ensures
        match r {
            Some(n) => n >= 0 && n as nat == digits_val(ds@),
            None => digits_val(ds@) > i32::MAX,
        },
{
    let mut acc: u64 = 0;
    let mut i: usize = 0;
    while i < ds.len()
        invariant
            forall|j: int| 0 <= j < ds@.len() ==> is_digit_char(#[trigger] ds@[j]),
            i <= ds.len(),
            acc == digits_val(ds@.subrange(0, i as int)),
            acc <= i32::MAX,
        decreases ds.len() - i,
    {
        let d = digit_value(ds[i]);
        let next: u64 = acc * 10 + (d as u64);
        proof {
            let t = ds@.subrange(0, i + 1);
            assert(t.drop_last() =~= ds@.subrange(0, i as int));
            assert(t.last() == ds@[i as int]);
            assert(next == digits_val(t));
        }
        if next > (i32::MAX as u64) {
            proof {
                lemma_digits_val_prefix_mono(ds@, i + 1);
            }
            return None;
        }
        acc = next;
        i += 1;
    }
    proof {
        assert(ds@.subrange(0, ds@.len() as int) =~= ds@);
    }
    Some(acc as i32)
}

/// Replacement of every left-to-right, non-overlapping occurrence of `pat` by
/// `sub`; the empty pattern replaces nothing.
pub open spec fn replace_spec(s: Seq<char>, pat: Seq<char>, sub: Seq<char>) -> Seq<char>
    decreases s.len(),
{
    if pat.len() == 0 {
        s
    } else if s.len() < pat.len() {
        s
    } else if s.subrange(0, pat.len() as int) == pat {
        sub + replace_spec(s.skip(pat.len() as int), pat, sub)
    } else {
        seq![s[0]] + replace_spec(s.drop_first(), pat, sub)
    }
}

proof fn lemma_replace_unmatched(s: Seq<char>, pat: Seq<char>, sub: Seq<char>)
    requires
        pat.len() > 0,
        s.len() > 0,
        !(s.len() >= pat.len() && s.subrange(0, pat.len() as int) == pat),
    ensures
        replace_spec(s, pat, sub) == seq![s[0]] + replace_spec(s.drop_first(), pat, sub),
{
    if s.len() < pat.len() {
        assert(replace_spec(s, pat, sub) == s);
        assert(s.drop_first().len() < pat.len());
        assert(replace_spec(s.drop_first(), pat, sub) == s.drop_first());
        assert(s =~= seq![s[0]] + s.drop_first());
    }
}

pub fn replace_chars(v: &Vec<char>, pat: &[char], sub: &Vec<char>) -> (r: Vec<char>)
    requires
        pat@.len() > 0,
    ensures
        r@ == replace_spec(v@, pat@, sub@),
{
    let mut out: Vec<char> = Vec::new();
    let mut i: usize = 0;
    proof {
        assert(v@.skip(0) =~= v@);
        assert(out@ + replace_spec(v@, pat@, sub@) =~= replace_spec(v@, pat@, sub@));
    }
    while i < v.len()
        invariant
            pat@.len() > 0,
            i <= v@.len(),
            replace_spec(v@, pat@, sub@) == out@ + replace_spec(v@.skip(i as int), pat@, sub@),
        decreases v@.len() - i,
    {
        let ghost rest = v@.skip(i as int);
        if chars_match_at(v, pat, i) {
            let ghost pre = out@;
            let mut j: usize = 0;
            while j < sub.len()
                invariant
                    j <= sub@.len(),
                    out@ == pre + sub@.subrange(0, j as int),
                decreases sub@.len() - j,
            {
                out.push(sub[j]);
                j += 1;
                proof {
                    assert(out@ =~= pre + sub@.subrange(0, j as int));
                }
            }
            proof {
                assert(out@ =~= pre + sub@) by {
                    assert(sub@.subrange(0, sub@.len() as int) =~= sub@);
                }
                assert(rest.subrange(0, pat@.len() as int) =~= v@.subrange(
                    i as int,
                    i + pat@.len(),
                ));
                assert(rest.skip(pat@.len() as int) =~= v@.skip(i + pat@.len()));
                assert(replace_spec(rest, pat@, sub@) == sub@ + replace_spec(
                    v@.skip(i + pat@.len()),
                    pat@,
                    sub@,
                ));
                assert(pre + (sub@ + replace_spec(v@.skip(i + pat@.len()), pat@, sub@)) =~= (pre
                    + sub@) + replace_spec(v@.skip(i + pat@.len()), pat@, sub@));
            }
            i += pat.len();
        } else {
            let ghost pre = out@;
            out.push(v[i]);
            proof {
                assert(rest.len() >= pat@.len() ==> rest.subrange(0, pat@.len() as int) =~= v@
                    .subrange(i as int, i + pat@.len()));
                assert(rest[0] == v@[i as int]);
                lemma_replace_unmatched(rest, pat@, sub@);
                assert(rest.drop_first() =~= v@.skip(i + 1));
                assert(pre + (seq![v@[i as int]] + replace_spec(v@.skip(i + 1), pat@, sub@)) =~= (
                pre + seq![v@[i as int]]) + replace_spec(v@.skip(i + 1), pat@, sub@));
                assert(out@ =~= pre + seq![v@[i as int]]);
            }
            i += 1;
        }
    }
    proof {
        assert(v@.skip(v@.len() as int) =~= Seq::<char>::empty());
        assert(out@ =~= out@ + Seq::<char>::empty());
    }
    out
}

} // verus!
