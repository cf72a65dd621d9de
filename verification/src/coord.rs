//! Coordinates, kept as the text the file writes, compared by value.
//!
//! A literal is first written without its exponent (`1.5e2` becomes `150`,
//! `2E-3` becomes `0.002`), then normalised to the shortest text of its
//! exact decimal value: no `+`, no leading zeros in the integer part, no
//! trailing zeros in the fraction, no `.` when the fraction is empty. Two
//! coordinates are at the same place when their normal forms agree, where
//! `-0` and `0` agree.
//!
//! This is how an `f64` parses and prints (`Display` never uses an exponent)
//! for every literal of at most 15 significant digits whose exponent is at
//! most 300 in magnitude: there the `f64` is the nearest double to the
//! decimal, and its shortest printing is that decimal. Outside that set the
//! two can part: an `f64` rounds a longer mantissa and overflows or
//! underflows beyond its range, where the normal form stays exact; and a
//! literal whose exponent has more than three digits or exceeds 300 is kept
//! and compared as written.

use vstd::prelude::*;
use crate::text::{chars_of, string_from_chars, slice_to_vec};

verus! {

/// Some character is an exponent marker.
pub open spec fn has_exponent(s: Seq<char>) -> bool {
    exists|i: int| 0 <= i < s.len() && (#[trigger] s[i] == 'e' || s[i] == 'E')
}

/// Index of the first `.` at or after `i` (or `t.len()`).
pub open spec fn dot_at(t: Seq<char>, i: int) -> int
    decreases t.len() - i,
{
    if 0 <= i < t.len() && t[i] != '.' {
        dot_at(t, i + 1)
    } else {
        i
    }
}

pub proof fn lemma_dot_at(t: Seq<char>, i: int)
    requires
        0 <= i <= t.len(),
    ensures
        i <= dot_at(t, i) <= t.len(),
    decreases t.len() - i,
{
    if i < t.len() && t[i] != '.' {
        lemma_dot_at(t, i + 1);
    }
}

/// `d` without leading `0`s.
pub open spec fn strip_leading_zeros(d: Seq<char>) -> Seq<char>
    decreases d.len(),
{
    if d.len() > 0 && d[0] == '0' {
        strip_leading_zeros(d.drop_first())
    } else {
        d
    }
}

/// `d` without trailing `0`s.
pub open spec fn strip_trailing_zeros(d: Seq<char>) -> Seq<char>
    decreases d.len(),
{
    if d.len() > 0 && d.last() == '0' {
        strip_trailing_zeros(d.drop_last())
    } else {
        d
    }
}

/// The normal form of a literal without an exponent.
pub open spec fn plain_display(s: Seq<char>) -> Seq<char> {
    {
        let neg = s.len() > 0 && s[0] == '-';
        let a: int = if s.len() > 0 && (s[0] == '-' || s[0] == '+') {
            1
        } else {
            0
        };
        let body = s.skip(a);
        let p = dot_at(body, 0);
        let int_part = strip_leading_zeros(body.take(p));
        let frac = if p < body.len() {
            strip_trailing_zeros(body.skip(p + 1))
        } else {
            Seq::empty()
        };
        (if neg {
            seq!['-']
        } else {
            Seq::empty()
        }) + (if int_part.len() == 0 {
            seq!['0']
        } else {
            int_part
        }) + (if frac.len() > 0 {
            seq!['.'] + frac
        } else {
            Seq::empty()
        })
    }
}

/// Index of the first exponent marker at or after `i` (or `s.len()`).
pub open spec fn exp_at(s: Seq<char>, i: int) -> int
    decreases s.len() - i,
{
    if 0 <= i < s.len() && s[i] != 'e' && s[i] != 'E' {
        exp_at(s, i + 1)
    } else {
        i
    }
}

pub proof fn lemma_exp_at(s: Seq<char>, i: int)
    requires
        0 <= i <= s.len(),
    ensures
        i <= exp_at(s, i) <= s.len(),
        forall|j: int| i <= j < exp_at(s, i) ==> #[trigger] s[j] != 'e' && s[j] != 'E',
        exp_at(s, i) < s.len() ==> s[exp_at(s, i)] == 'e' || s[exp_at(s, i)] == 'E',
    decreases s.len() - i,
{
    if i < s.len() && s[i] != 'e' && s[i] != 'E' {
        lemma_exp_at(s, i + 1);
    }
}

/// The value of an exponent written with an optional sign and one to three
/// digits, when it is at most 300 in magnitude.
pub open spec fn exponent_value(t: Seq<char>) -> Option<int> {
    let neg = t.len() > 0 && t[0] == '-';
    let a: int = if t.len() > 0 && (t[0] == '-' || t[0] == '+') {
        1
    } else {
        0
    };
    let d = t.skip(a);
    if d.len() == 0 || d.len() > 3 || crate::parser::digits_end(d, 0) != d.len() {
        None
    } else {
        let v = crate::parser::digits_value(d) as int;
        if v > 300 {
            None
        } else {
            Some(if neg { -v } else { v })
        }
    }
}

/// `n` zeros.
pub open spec fn zeros(n: nat) -> Seq<char> {
    Seq::new(n, |i: int| '0')
}

/// The digits with the decimal point put after the first `q` of them.
pub open spec fn shifted(digits: Seq<char>, q: int) -> Seq<char> {
    if q <= 0 {
        seq!['0', '.'] + zeros((-q) as nat) + digits
    } else if q >= digits.len() {
        digits + zeros((q - digits.len()) as nat)
    } else {
        digits.take(q) + seq!['.'] + digits.skip(q)
    }
}

/// Length of the sign of a mantissa: one for `-` or `+`, else zero.
pub open spec fn sign_len(m: Seq<char>) -> int {
    if m.len() > 0 && (m[0] == '-' || m[0] == '+') {
        1
    } else {
        0
    }
}

/// The integer digits of a mantissa: before its point.
pub open spec fn int_digits(m: Seq<char>) -> Seq<char> {
    let body = m.skip(sign_len(m));
    body.take(dot_at(body, 0))
}

/// The digits of a mantissa, integer part then fraction, without the point.
pub open spec fn mantissa_digits(m: Seq<char>) -> Seq<char> {
    let body = m.skip(sign_len(m));
    let p = dot_at(body, 0);
    body.take(p) + if p < body.len() {
        body.skip(p + 1)
    } else {
        Seq::empty()
    }
}

/// A literal with an exponent written without it: the sign, then the
/// mantissa's digits with the point moved by the exponent; `None` when the
/// exponent is not one to three digits of magnitude at most 300.
pub open spec fn expand_exponent(s: Seq<char>) -> Option<Seq<char>> {
    let k = exp_at(s, 0);
    match exponent_value(s.skip(k + 1)) {
        None => None,
        Some(x) => {
            let m = s.take(k);
            Some(m.take(sign_len(m)) + shifted(mantissa_digits(m), int_digits(m).len() + x))
        },
    }
}

/// The text a coordinate is shown with: the normal form of its value (see
/// the module documentation).
pub open spec fn coord_display(s: Seq<char>) -> Seq<char> {
    if has_exponent(s) {
        match expand_exponent(s) {
            Some(t) => plain_display(t),
            None => s,
        }
    } else {
        plain_display(s)
    }
}

/// The text two coordinates at the same place share.
pub open spec fn coord_key(s: Seq<char>) -> Seq<char> {
    if coord_display(s) == seq!['-', '0'] {
        seq!['0']
    } else {
        coord_display(s)
    }
}

fn has_exponent_exec(s: &[char]) -> (b: bool)
    ensures
        b == has_exponent(s@),
{
    let mut i: usize = 0;
    while i < s.len()
        invariant
            i <= s@.len(),
            forall|j: int| 0 <= j < i ==> !(#[trigger] s@[j] == 'e' || s@[j] == 'E'),
        decreases s@.len() - i,
    {
        if s[i] == 'e' || s[i] == 'E' {
            return true;
        }
        i = i + 1;
    }
    false
}

fn plain_display_chars(s: &[char]) -> (out: Vec<char>)
    ensures
        out@ == plain_display(s@),
{
    let neg = s.len() > 0 && s[0] == '-';
    let a: usize = if s.len() > 0 && (s[0] == '-' || s[0] == '+') {
        1
    } else {
        0
    };
    let ghost body = s@.skip(a as int);
    let mut p = a;
    proof {
        lemma_dot_at(body, 0);
    }
    while p < s.len() && s[p] != '.'
        invariant
            a <= p <= s@.len(),
            body == s@.skip(a as int),
            dot_at(body, 0) == dot_at(body, p - a),
        decreases s@.len() - p,
    {
        assert(body[p - a] == s@[p as int]);
        p = p + 1;
    }
    proof {
        if p < s.len() {
            assert(body[p - a] == s@[p as int]);
        }
    }
    let mut i0 = a;
    assert(body.take(p - a) =~= s@.subrange(a as int, p as int));
    while i0 < p && s[i0] == '0'
        invariant
            a <= i0 <= p <= s@.len(),
            strip_leading_zeros(body.take(p - a)) == strip_leading_zeros(s@.subrange(i0 as int, p as int)),
            body == s@.skip(a as int),
        decreases p - i0,
    {
        proof {
            let d = s@.subrange(i0 as int, p as int);
            assert(d[0] == '0');
            assert(d.drop_first() =~= s@.subrange(i0 + 1, p as int));
        }
        i0 = i0 + 1;
    }
    proof {
        assert(body.take(p - a) =~= s@.subrange(a as int, p as int));
        let d = s@.subrange(i0 as int, p as int);
        if d.len() > 0 {
            assert(d[0] == s@[i0 as int]);
        }
    }
    let mut out: Vec<char> = Vec::new();
    if neg {
        out.push('-');
    }
    if i0 == p {
        out.push('0');
    } else {
        let ip = slice_to_vec(s, i0, p);
        crate::text::push_chars(&mut out, ip.as_slice());
    }
    let ghost head = out@;
    if p < s.len() {
        let mut e = s.len();
        assert(body.skip(p - a + 1) =~= s@.subrange(p + 1, s@.len() as int));
        while e > p + 1 && s[e - 1] == '0'
            invariant
                p + 1 <= e <= s@.len(),
                strip_trailing_zeros(body.skip(p - a + 1)) == strip_trailing_zeros(
                    s@.subrange(p + 1, e as int),
                ),
                body == s@.skip(a as int),
            decreases e,
        {
            proof {
                let d = s@.subrange(p + 1, e as int);
                assert(d.last() == '0');
                assert(d.drop_last() =~= s@.subrange(p + 1, e - 1));
            }
            e = e - 1;
        }
        proof {
            assert(body.skip(p - a + 1) =~= s@.subrange(p + 1, s@.len() as int));
            let d = s@.subrange(p + 1, e as int);
            if d.len() > 0 {
                assert(d.last() == s@[e - 1]);
            }
        }
        if e > p + 1 {
            out.push('.');
            let fp = slice_to_vec(s, p + 1, e);
            crate::text::push_chars(&mut out, fp.as_slice());
        }
    }
    proof {
        let int_part = strip_leading_zeros(body.take(p - a));
        assert(head =~= (if neg {
            seq!['-']
        } else {
            Seq::empty()
        }) + (if int_part.len() == 0 {
            seq!['0']
        } else {
            int_part
        }));
    }
    assert(out@ =~= plain_display(s@));
    out
}

fn push_zeros(out: &mut Vec<char>, n: usize)
    ensures
        final(out)@ == old(out)@ + zeros(n as nat),
{
    let ghost start = out@;
    let mut i: usize = 0;
    while i < n
        invariant
            i <= n,
            out@ == start + zeros(i as nat),
        decreases n - i,
    {
        out.push('0');
        i = i + 1;
        assert(out@ =~= start + zeros(i as nat));
    }
}

/// The exponent's value, as `exponent_value` gives it, for the text from
/// `start` on.
fn exponent_exec(s: &[char], start: usize) -> (r: Option<i32>)
    requires
        start <= s@.len(),
    ensures
        match exponent_value(s@.skip(start as int)) {
            Some(x) => r == Some(x as i32) && -300 <= x <= 300,
            None => r is None,
        },
{
    let ghost t = s@.skip(start as int);
    let neg = start < s.len() && s[start] == '-';
    let a: usize = if start < s.len() && (s[start] == '-' || s[start] == '+') {
        start + 1
    } else {
        start
    };
    let ghost d = s@.skip(a as int);
    assert(t.skip(a - start) =~= d);
    assert(start < s@.len() ==> t[0] == s@[start as int]);
    assert(t.len() == s@.len() - start);
    assert(d == t.skip(if t.len() > 0 && (t[0] == '-' || t[0] == '+') { 1int } else { 0int }));
    proof {
        crate::parser::lemma_digits_end(d, 0);
    }
    if s.len() - a == 0 || s.len() - a > 3 {
        return None;
    }
    let mut v: u32 = 0;
    let mut i = a;
    assert(d.take(0) =~= Seq::<char>::empty());
    while i < s.len()
        invariant
            a <= i <= s@.len(),
            s@.len() - a <= 3,
            1 <= d.len() <= 3,
            t == s@.skip(start as int),
            d == s@.skip(a as int),
            d == t.skip(if t.len() > 0 && (t[0] == '-' || t[0] == '+') { 1int } else { 0int }),
            neg == (t.len() > 0 && t[0] == '-'),
            forall|j: int| 0 <= j < i - a ==> crate::parser::is_digit(#[trigger] d[j]),
            v == crate::parser::digits_value(d.take(i - a)),
            i - a == 0 ==> v == 0,
            i - a == 1 ==> v <= 9,
            i - a == 2 ==> v <= 99,
            i - a == 3 ==> v <= 999,
        decreases s@.len() - i,
    {
        assert(d[i - a] == s@[i as int]);
        if !('0' <= s[i] && s[i] <= '9') {
            proof {
                crate::parser::lemma_digits_end(d, 0);
                assert(!crate::parser::is_digit(d[i - a]));
                assert(crate::parser::digits_end(d, 0) != d.len());
                assert(exponent_value(t) is None);
            }
            return None;
        }
        let dv = (s[i] as u32) - ('0' as u32);
        assert(d.take(i - a + 1).drop_last() =~= d.take(i - a));
        assert(d.take(i - a + 1).last() == s@[i as int]);
        v = v * 10 + dv;
        i = i + 1;
    }
    assert(d.take(d.len() as int) =~= d);
    if v > 300 {
        return None;
    }
    if neg {
        Some(-(v as i32))
    } else {
        Some(v as i32)
    }
}

fn exp_index(s: &[char]) -> (k: usize)
    ensures
        k == exp_at(s@, 0),
{
    proof {
        lemma_exp_at(s@, 0);
    }
    let mut k: usize = 0;
    while k < s.len() && s[k] != 'e' && s[k] != 'E'
        invariant
            k <= s@.len(),
            exp_at(s@, 0) == exp_at(s@, k as int),
        decreases s@.len() - k,
    {
        k = k + 1;
    }
    k
}

/// The sign length, the integer digit count and the digits of the mantissa
/// `s[0..k]`.
fn split_mantissa(s: &[char], k: usize) -> (r: (usize, usize, Vec<char>))
    requires
        k <= s@.len(),
    ensures
        r.0 == sign_len(s@.take(k as int)),
        r.1 == int_digits(s@.take(k as int)).len(),
        r.2@ == mantissa_digits(s@.take(k as int)),
{
    let ghost m = s@.take(k as int);
    let a: usize = if k > 0 && (s[0] == '-' || s[0] == '+') {
        1
    } else {
        0
    };
    let ghost body = m.skip(a as int);
    let mut p = a;
    proof {
        lemma_dot_at(body, 0);
    }
    while p < k && s[p] != '.'
        invariant
            a <= p <= k <= s@.len(),
            m == s@.take(k as int),
            body == m.skip(a as int),
            dot_at(body, 0) == dot_at(body, p - a),
        decreases k - p,
    {
        assert(body[p - a] == s@[p as int]);
        p = p + 1;
    }
    proof {
        if p < k {
            assert(body[p - a] == s@[p as int]);
        }
    }
    let mut digits = slice_to_vec(s, a, p);
    assert(digits@ =~= body.take(p - a));
    if p < k {
        let f = slice_to_vec(s, p + 1, k);
        assert(f@ =~= body.skip(p - a + 1));
        crate::text::push_chars(&mut digits, f.as_slice());
    } else {
        assert(digits@ =~= body.take(p - a) + Seq::<char>::empty());
    }
    (a, p - a, digits)
}

/// `shifted` of the digits, appended.
fn push_shifted(out: &mut Vec<char>, digits: &Vec<char>, q: i128)
    requires
        -(digits@.len() as int) - 301 <= q <= old(out)@.len() + digits@.len() + 301,
        q <= 0 ==> -q <= usize::MAX,
        q >= digits@.len() ==> q - digits@.len() <= usize::MAX,
    ensures
        final(out)@ == old(out)@ + shifted(digits@, q as int),
{
    let ghost head = out@;
    if q <= 0 {
        out.push('0');
        out.push('.');
        push_zeros(out, (-q) as usize);
        crate::text::push_chars(out, digits.as_slice());
        assert(out@ =~= head + shifted(digits@, q as int));
    } else if q >= digits.len() as i128 {
        let n = (q - digits.len() as i128) as usize;
        crate::text::push_chars(out, digits.as_slice());
        push_zeros(out, n);
        assert(out@ =~= head + shifted(digits@, q as int));
    } else {
        let qq = q as usize;
        let left = slice_to_vec(digits.as_slice(), 0, qq);
        let right = slice_to_vec(digits.as_slice(), qq, digits.len());
        crate::text::push_chars(out, left.as_slice());
        out.push('.');
        crate::text::push_chars(out, right.as_slice());
        assert(out@ =~= head + shifted(digits@, q as int));
    }
}

/// The literal written without its exponent, as `expand_exponent` gives it.
fn expand_chars(s: &[char]) -> (r: Option<Vec<char>>)
    requires
        has_exponent(s@),
    ensures
        match expand_exponent(s@) {
            Some(t) => r matches Some(v) && v@ == t,
            None => r is None,
        },
{
    let k = exp_index(s);
    proof {
        lemma_exp_at(s@, 0);
    }
    assert(k < s.len()) by {
        let i = choose|i: int| 0 <= i < s@.len() && (#[trigger] s@[i] == 'e' || s@[i] == 'E');
    }
    let x = match exponent_exec(s, k + 1) {
        None => return None,
        Some(x) => x,
    };
    let (a, n_int, digits) = split_mantissa(s, k);
    proof {
        let m = s@.take(k as int);
        let body = m.skip(sign_len(m));
        lemma_dot_at(body, 0);
        assert(n_int <= k);
        assert(digits@.len() <= k);
    }
    let q: i128 = n_int as i128 + x as i128;
    let mut out: Vec<char> = slice_to_vec(s, 0, a);
    assert(out@ =~= s@.take(k as int).take(a as int));
    push_shifted(&mut out, &digits, q);
    Some(out)
}

fn display_chars(s: &[char]) -> (out: Vec<char>)
    ensures
        out@ == coord_display(s@),
{
    if has_exponent_exec(s) {
        match expand_chars(s) {
            Some(t) => plain_display_chars(t.as_slice()),
            None => slice_to_vec(s, 0, s.len()),
        }
    } else {
        plain_display_chars(s)
    }
}

/// The text a coordinate is shown with.
pub fn display_coord(s: &str) -> (d: String)
    ensures
        d@ == coord_display(s@),
{
    let cs = chars_of(s);
    let out = display_chars(cs.as_slice());
    string_from_chars(out.as_slice())
}

/// Whether two coordinates are at the same place.
pub fn same_coord(a: &str, b: &str) -> (r: bool)
    ensures
        r == (coord_key(a@) == coord_key(b@)),
{
    let ca = chars_of(a);
    let cb = chars_of(b);
    let da = display_chars(ca.as_slice());
    let db = display_chars(cb.as_slice());
    let za = da.len() == 2 && da[0] == '-' && da[1] == '0';
    let zb = db.len() == 2 && db[0] == '-' && db[1] == '0';
    proof {
        if za {
            assert(da@ =~= seq!['-', '0']);
        } else if da@ == seq!['-', '0'] {
            assert(da@[0] == '-' && da@[1] == '0');
        }
        if zb {
            assert(db@ =~= seq!['-', '0']);
        } else if db@ == seq!['-', '0'] {
            assert(db@[0] == '-' && db@[1] == '0');
        }
    }
    if za && zb {
        return true;
    }
    if za {
        let r = db.len() == 1 && db[0] == '0';
        proof {
            if r {
                assert(db@ =~= seq!['0']);
            } else if db@ == seq!['0'] {
                assert(db@[0] == '0');
            }
        }
        return r;
    }
    if zb {
        let r = da.len() == 1 && da[0] == '0';
        proof {
            if r {
                assert(da@ =~= seq!['0']);
            } else if da@ == seq!['0'] {
                assert(da@[0] == '0');
            }
        }
        return r;
    }
    crate::text::chars_eq(da.as_slice(), db.as_slice())
}

} // verus!
