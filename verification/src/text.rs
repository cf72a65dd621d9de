//! Character-level helpers shared by the parser and the report builders.
//!
//! Strings are reasoned about through their view, a `Seq<char>`. The exec
//! helpers here work on `Vec<char>` copies of the text, which keeps index
//! arithmetic simple and verifiable.

use vstd::prelude::*;

verus! {

// ───────────────────────── whitespace ─────────────────────────

/// Unicode `White_Space`, the property behind `char::is_whitespace`.
pub open spec fn is_ws(c: char) -> bool {
    ||| ('\t' <= c && c <= '\r')
    ||| c == ' '
    ||| c == '\u{85}'
    ||| c == '\u{a0}'
    ||| c == '\u{1680}'
    ||| ('\u{2000}' <= c && c <= '\u{200a}')
    ||| c == '\u{2028}'
    ||| c == '\u{2029}'
    ||| c == '\u{202f}'
    ||| c == '\u{205f}'
    ||| c == '\u{3000}'
}

pub fn is_whitespace(c: char) -> (b: bool)
    ensures
        b == is_ws(c),
{
    ('\t' <= c && c <= '\r') || c == ' ' || c == '\u{85}' || c == '\u{a0}' || c == '\u{1680}'
        || ('\u{2000}' <= c && c <= '\u{200a}') || c == '\u{2028}' || c == '\u{2029}' || c
        == '\u{202f}' || c == '\u{205f}' || c == '\u{3000}'
}

/// `s` without its leading whitespace.
pub open spec fn ltrim(s: Seq<char>) -> Seq<char>
    decreases s.len(),
{
    if s.len() > 0 && is_ws(s[0]) {
        ltrim(s.drop_first())
    } else {
        s
    }
}

/// `s` without its trailing whitespace.
pub open spec fn rtrim(s: Seq<char>) -> Seq<char>
    decreases s.len(),
{
    if s.len() > 0 && is_ws(s.last()) {
        rtrim(s.drop_last())
    } else {
        s
    }
}

/// `s` without leading and trailing whitespace.
pub open spec fn trim(s: Seq<char>) -> Seq<char> {
    rtrim(ltrim(s))
}

/// The characters of a string, one per element.
pub fn chars_of(s: &str) -> (out: Vec<char>)
    ensures
        out@ == s@,
{
    let mut out: Vec<char> = Vec::new();
    for c in it: s.chars()
        invariant
            out@ == it.seq().take(it.index() as int),
            it.seq() == s@,
    {
        out.push(c);
        assert(out@ == it.seq().take(it.index() as int + 1));
    }
    out
}

/// Builds a `String` holding exactly the given characters.
#[verifier::external_body]
pub(crate) fn string_from_chars(cs: &[char]) -> (s: String)
    ensures
        s@ == cs@,
{
    String::from_iter(cs.iter())
}

/// Copy of `s[start..end]`.
pub fn slice_to_vec(s: &[char], start: usize, end: usize) -> (out: Vec<char>)
    requires
        start <= end <= s@.len(),
    ensures
        out@ == s@.subrange(start as int, end as int),
{
    let mut out: Vec<char> = Vec::new();
    let mut i = start;
    while i < end
        invariant
            start <= i <= end <= s@.len(),
            out@ == s@.subrange(start as int, i as int),
        decreases end - i,
    {
        out.push(s[i]);
        i = i + 1;
    }
    out
}

proof fn lemma_ltrim_skip(s: Seq<char>, i: int)
    requires
        0 <= i <= s.len(),
        forall|j: int| 0 <= j < i ==> is_ws(#[trigger] s[j]),
    ensures
        ltrim(s) == ltrim(s.skip(i)),
    decreases i,
{
    if i > 0 {
        assert(is_ws(s[0]));
        assert forall|j: int| 0 <= j < i - 1 implies is_ws(#[trigger] s.drop_first()[j]) by {
            assert(s.drop_first()[j] == s[j + 1]);
        }
        lemma_ltrim_skip(s.drop_first(), i - 1);
        assert(s.drop_first().skip(i - 1) =~= s.skip(i));
    } else {
        assert(s.skip(0) =~= s);
    }
}

proof fn lemma_rtrim_take(s: Seq<char>, e: int)
    requires
        0 <= e <= s.len(),
        forall|j: int| e <= j < s.len() ==> is_ws(#[trigger] s[j]),
    ensures
        rtrim(s) == rtrim(s.take(e)),
    decreases s.len() - e,
{
    if e < s.len() {
        assert(is_ws(s.last()));
        assert forall|j: int| e <= j < s.drop_last().len() implies is_ws(#[trigger] s.drop_last()[j]) by {
            assert(s.drop_last()[j] == s[j]);
        }
        lemma_rtrim_take(s.drop_last(), e);
        assert(s.drop_last().take(e) =~= s.take(e));
    } else {
        assert(s.take(e) =~= s);
    }
}

/// Index of the first non-whitespace character of `s[start..end]` (or `end`).
pub fn skip_ws_from(s: &[char], start: usize, end: usize) -> (i: usize)
    requires
        start <= end <= s@.len(),
    ensures
        start <= i <= end,
        ltrim(s@.subrange(start as int, end as int)) == s@.subrange(i as int, end as int),
        forall|j: int| start <= j < i ==> is_ws(#[trigger] s@[j]),
        i < end ==> !is_ws(s@[i as int]),
{
    let mut i = start;
    while i < end && is_whitespace(s[i])
        invariant
            start <= i <= end <= s@.len(),
            forall|j: int| start <= j < i ==> is_ws(#[trigger] s@[j]),
        decreases end - i,
    {
        i = i + 1;
    }
    proof {
        let sub = s@.subrange(start as int, end as int);
        assert forall|j: int| 0 <= j < i - start implies is_ws(#[trigger] sub[j]) by {
            assert(sub[j] == s@[start + j]);
        }
        lemma_ltrim_skip(sub, i - start);
        assert(sub.skip(i - start) =~= s@.subrange(i as int, end as int));
        let rest = s@.subrange(i as int, end as int);
        if rest.len() > 0 {
            assert(rest[0] == s@[i as int]);
        }
    }
    i
}

/// Exclusive end index of `s[start..end]` once trailing whitespace is removed.
pub fn trim_end_from(s: &[char], start: usize, end: usize) -> (e: usize)
    requires
        start <= end <= s@.len(),
    ensures
        start <= e <= end,
        rtrim(s@.subrange(start as int, end as int)) == s@.subrange(start as int, e as int),
        forall|j: int| e <= j < end ==> is_ws(#[trigger] s@[j]),
        e > start ==> !is_ws(s@[e - 1]),
{
    let mut e = end;
    while e > start && is_whitespace(s[e - 1])
        invariant
            start <= e <= end <= s@.len(),
            forall|j: int| e <= j < end ==> is_ws(#[trigger] s@[j]),
        decreases e - start,
    {
        e = e - 1;
    }
    proof {
        let sub = s@.subrange(start as int, end as int);
        assert forall|j: int| e - start <= j < sub.len() implies is_ws(#[trigger] sub[j]) by {
            assert(sub[j] == s@[start + j]);
        }
        lemma_rtrim_take(sub, e - start);
        assert(sub.take(e - start) =~= s@.subrange(start as int, e as int));
        let rest = s@.subrange(start as int, e as int);
        if rest.len() > 0 {
            assert(rest.last() == s@[e - 1]);
            assert(!is_ws(rest.last()));
        }
    }
    e
}

proof fn lemma_ltrim_shape(s: Seq<char>)
    ensures
        exists|k: int|
            0 <= k <= s.len() && ltrim(s) == s.skip(k) && (forall|j: int|
                0 <= j < k ==> is_ws(#[trigger] s[j])) && (k < s.len() ==> !is_ws(s[k])),
    decreases s.len(),
{
    if s.len() > 0 && is_ws(s[0]) {
        lemma_ltrim_shape(s.drop_first());
        let k = choose|k: int|
            0 <= k <= s.drop_first().len() && ltrim(s.drop_first()) == s.drop_first().skip(k)
                && (forall|j: int| 0 <= j < k ==> is_ws(#[trigger] s.drop_first()[j])) && (k
                < s.drop_first().len() ==> !is_ws(s.drop_first()[k]));
        assert(s.drop_first().skip(k) =~= s.skip(k + 1));
        assert forall|j: int| 0 <= j < k + 1 implies is_ws(#[trigger] s[j]) by {
            if j > 0 {
                assert(s[j] == s.drop_first()[j - 1]);
            }
        }
        if k + 1 < s.len() {
            assert(s[k + 1] == s.drop_first()[k]);
        }
    } else {
        assert(s.skip(0) =~= s);
    }
}

/// `trim` of `s[start..end]`, as the bounds of the trimmed part.
pub fn trim_bounds(s: &[char], start: usize, end: usize) -> (r: (usize, usize))
    requires
        start <= end <= s@.len(),
    ensures
        start <= r.0 <= r.1 <= end,
        trim(s@.subrange(start as int, end as int)) == s@.subrange(r.0 as int, r.1 as int),
{
    let b = skip_ws_from(s, start, end);
    let e = trim_end_from(s, b, end);
    (b, e)
}

// ───────────────────────── order ─────────────────────────

/// Lexicographic order on character sequences, by code point; this is the
/// order of `String` (whose bytes are UTF-8, which keeps code point order).
pub open spec fn seq_lt(a: Seq<char>, b: Seq<char>) -> bool
    decreases a.len(),
{
    if a.len() == 0 {
        b.len() > 0
    } else if b.len() == 0 {
        false
    } else if a[0] == b[0] {
        seq_lt(a.drop_first(), b.drop_first())
    } else {
        a[0] < b[0]
    }
}

pub proof fn lemma_seq_lt_irreflexive(a: Seq<char>)
    ensures
        !seq_lt(a, a),
    decreases a.len(),
{
    if a.len() > 0 {
        lemma_seq_lt_irreflexive(a.drop_first());
    }
}

pub proof fn lemma_seq_lt_transitive(a: Seq<char>, b: Seq<char>, c: Seq<char>)
    requires
        seq_lt(a, b),
        seq_lt(b, c),
    ensures
        seq_lt(a, c),
    decreases a.len(),
{
    if a.len() > 0 && b.len() > 0 && c.len() > 0 {
        if a[0] == b[0] && b[0] == c[0] {
            lemma_seq_lt_transitive(a.drop_first(), b.drop_first(), c.drop_first());
        }
    }
}

pub proof fn lemma_seq_lt_total(a: Seq<char>, b: Seq<char>)
    ensures
        seq_lt(a, b) || seq_lt(b, a) || a == b,
    decreases a.len(),
{
    if a.len() > 0 && b.len() > 0 {
        if a[0] == b[0] {
            lemma_seq_lt_total(a.drop_first(), b.drop_first());
            if a.drop_first() == b.drop_first() {
                assert(a =~= seq![a[0]] + a.drop_first());
                assert(b =~= seq![b[0]] + b.drop_first());
            }
        }
    } else if a.len() == 0 && b.len() == 0 {
        assert(a =~= b);
    }
}

pub proof fn lemma_seq_lt_asymmetric(a: Seq<char>, b: Seq<char>)
    requires
        seq_lt(a, b),
    ensures
        !seq_lt(b, a),
        a != b,
{
    if seq_lt(b, a) {
        lemma_seq_lt_transitive(a, b, a);
        lemma_seq_lt_irreflexive(a);
    }
    if a == b {
        lemma_seq_lt_irreflexive(a);
    }
}

/// Whether `a` comes strictly before `b`.
pub fn chars_less(a: &[char], b: &[char]) -> (r: bool)
    ensures
        r == seq_lt(a@, b@),
{
    let mut i: usize = 0;
    assert(a@.skip(0) =~= a@);
    assert(b@.skip(0) =~= b@);
    while i < a.len() && i < b.len() && a[i] == b[i]
        invariant
            i <= a@.len(),
            i <= b@.len(),
            a@.take(i as int) == b@.take(i as int),
            seq_lt(a@, b@) == seq_lt(a@.skip(i as int), b@.skip(i as int)),
        decreases a@.len() - i,
    {
        proof {
            let sa = a@.skip(i as int);
            let sb = b@.skip(i as int);
            assert(sa[0] == sb[0]);
            assert(sa.drop_first() =~= a@.skip(i + 1));
            assert(sb.drop_first() =~= b@.skip(i + 1));
            assert(a@.take(i + 1) =~= a@.take(i as int).push(a@[i as int]));
            assert(b@.take(i + 1) =~= b@.take(i as int).push(b@[i as int]));
        }
        i = i + 1;
    }
    if i < a.len() && i < b.len() {
        proof {
            assert(a@.skip(i as int)[0] == a@[i as int]);
            assert(b@.skip(i as int)[0] == b@[i as int]);
        }
        a[i] < b[i]
    } else {
        i == a.len() && i < b.len()
    }
}

/// Whether two character slices hold the same characters.
pub fn chars_eq(a: &[char], b: &[char]) -> (r: bool)
    ensures
        r == (a@ == b@),
{
    if a.len() != b.len() {
        return false;
    }
    let mut i: usize = 0;
    while i < a.len()
        invariant
            a@.len() == b@.len(),
            i <= a@.len(),
            forall|j: int| 0 <= j < i ==> a@[j] == b@[j],
        decreases a@.len() - i,
    {
        if a[i] != b[i] {
            return false;
        }
        i = i + 1;
    }
    assert(a@ =~= b@);
    true
}

/// Whether `a` comes strictly before `b` in `String` order.
pub fn str_less(a: &str, b: &str) -> (r: bool)
    ensures
        r == seq_lt(a@, b@),
{
    let va = chars_of(a);
    let vb = chars_of(b);
    chars_less(va.as_slice(), vb.as_slice())
}

/// Whether two strings hold the same characters.
pub fn str_eq(a: &str, b: &str) -> (r: bool)
    ensures
        r == (a@ == b@),
{
    let va = chars_of(a);
    let vb = chars_of(b);
    chars_eq(va.as_slice(), vb.as_slice())
}

// ───────────────────────── searching ─────────────────────────

/// `p` occurs in `s` starting at index `i`.
pub open spec fn occurs_at(s: Seq<char>, p: Seq<char>, i: int) -> bool {
    0 <= i && i + p.len() <= s.len() && s.subrange(i, i + p.len()) == p
}

/// `p` occurs somewhere in `s`, as `str::contains` asks.
pub open spec fn contains_seq(s: Seq<char>, p: Seq<char>) -> bool {
    exists|i: int| occurs_at(s, p, i)
}

/// Whether `p` occurs in `s` at index `i`.
pub fn occurs_at_exec(s: &[char], p: &[char], i: usize) -> (r: bool)
    ensures
        r == occurs_at(s@, p@, i as int),
{
    if i > s.len() || p.len() > s.len() - i {
        return false;
    }
    let mut k: usize = 0;
    while k < p.len()
        invariant
            i + p.len() <= s.len(),
            k <= p@.len(),
            forall|j: int| 0 <= j < k ==> s@[i + j] == p@[j],
        decreases p@.len() - k,
    {
        if s[i + k] != p[k] {
            assert(s@.subrange(i as int, i + p@.len())[k as int] != p@[k as int]);
            return false;
        }
        k = k + 1;
    }
    assert(s@.subrange(i as int, i + p@.len()) =~= p@);
    true
}

/// Whether `p` occurs in `s`.
pub fn contains_chars(s: &[char], p: &[char]) -> (r: bool)
    ensures
        r == contains_seq(s@, p@),
{
    let mut i: usize = 0;
    while i < s.len()
        invariant
            i <= s@.len(),
            forall|j: int| 0 <= j < i ==> !occurs_at(s@, p@, j),
        decreases s@.len() - i,
    {
        if occurs_at_exec(s, p, i) {
            return true;
        }
        i = i + 1;
    }
    if occurs_at_exec(s, p, i) {
        return true;
    }
    assert forall|j: int| !occurs_at(s@, p@, j) by {
        if 0 <= j <= i {
        }
    }
    false
}

/// Whether `p` occurs in `s`.
pub fn str_contains(s: &str, p: &str) -> (r: bool)
    ensures
        r == contains_seq(s@, p@),
{
    let vs = chars_of(s);
    let vp = chars_of(p);
    contains_chars(vs.as_slice(), vp.as_slice())
}

/// Whether `s` begins with `p`.
pub fn str_starts_with(s: &str, p: &str) -> (r: bool)
    ensures
        r == occurs_at(s@, p@, 0),
{
    let vs = chars_of(s);
    let vp = chars_of(p);
    occurs_at_exec(vs.as_slice(), vp.as_slice(), 0)
}

/// `p` is a suffix of `s`, as `str::ends_with` asks.
pub open spec fn ends_with(s: Seq<char>, p: Seq<char>) -> bool {
    p.len() <= s.len() && occurs_at(s, p, s.len() - p.len())
}

/// Whether `s` ends with `p`.
pub fn str_ends_with(s: &str, p: &str) -> (r: bool)
    ensures
        r == ends_with(s@, p@),
{
    let vs = chars_of(s);
    let vp = chars_of(p);
    if vp.len() > vs.len() {
        return false;
    }
    occurs_at_exec(vs.as_slice(), vp.as_slice(), vs.len() - vp.len())
}

/// The text of each string.
pub open spec fn texts(v: Seq<String>) -> Seq<Seq<char>> {
    v.map_values(|w: String| w@)
}

/// Pushing a string pushes its text.
pub broadcast proof fn lemma_texts_push(v: Seq<String>, s: String)
    ensures
        #[trigger] texts(v.push(s)) == texts(v).push(s@),
{
    assert(texts(v.push(s)) =~= texts(v).push(s@));
}

/// The texts of two sequences put end to end.
pub broadcast proof fn lemma_texts_add(a: Seq<String>, b: Seq<String>)
    ensures
        #[trigger] texts(a + b) == texts(a) + texts(b),
{
    assert(texts(a + b) =~= texts(a) + texts(b));
}

/// Appends the strings of `more` to `lines`, in order.
pub fn append_lines(lines: &mut Vec<String>, more: Vec<String>)
    ensures
        texts(final(lines)@) == texts(old(lines)@) + texts(more@),
{
    broadcast use lemma_texts_push;

    let ghost start = texts(lines@);
    let mut i: usize = 0;
    while i < more.len()
        invariant
            i <= more@.len(),
            texts(lines@) == start + texts(more@.take(i as int)),
        decreases more@.len() - i,
    {
        let s = more[i].clone();
        let ghost before = lines@;
        let ghost sv = s;
        assert(s@ == more@[i as int]@);
        lines.push(s);
        proof {
            lemma_texts_push(before, sv);
        }
        assert(texts(more@.take(i + 1)) =~= texts(more@.take(i as int)).push(more@[i as int]@));
        assert(texts(lines@) =~= start + texts(more@.take(i + 1)));
        i = i + 1;
    }
    assert(more@.take(more@.len() as int) =~= more@);
}

// ───────────────────────── building ─────────────────────────

/// `a` followed by `b`.
pub fn concat_str(a: &str, b: &str) -> (r: String)
    ensures
        r@ == a@ + b@,
{
    let mut v = chars_of(a);
    let vb = chars_of(b);
    let mut i: usize = 0;
    let ghost start = v@;
    while i < vb.len()
        invariant
            i <= vb@.len(),
            v@ == start + vb@.take(i as int),
            start == a@,
        decreases vb@.len() - i,
    {
        v.push(vb[i]);
        i = i + 1;
        assert(vb@.take(i as int) =~= vb@.take(i - 1).push(vb@[i - 1]));
    }
    assert(vb@.take(i as int) =~= vb@);
    string_from_chars(v.as_slice())
}

/// Appends the characters of `b` to `v`.
pub fn push_str(v: &mut Vec<char>, b: &str)
    ensures
        final(v)@ == old(v)@ + b@,
{
    let vb = chars_of(b);
    let mut i: usize = 0;
    while i < vb.len()
        invariant
            i <= vb@.len(),
            v@ == old(v)@ + vb@.take(i as int),
        decreases vb@.len() - i,
    {
        v.push(vb[i]);
        i = i + 1;
        assert(vb@.take(i as int) =~= vb@.take(i - 1).push(vb@[i - 1]));
    }
    assert(vb@.take(i as int) =~= vb@);
}

/// Appends the characters of `b` to `v`.
pub fn push_chars(v: &mut Vec<char>, b: &[char])
    ensures
        final(v)@ == old(v)@ + b@,
{
    let mut i: usize = 0;
    while i < b.len()
        invariant
            i <= b@.len(),
            v@ == old(v)@ + b@.take(i as int),
        decreases b@.len() - i,
    {
        v.push(b[i]);
        i = i + 1;
        assert(b@.take(i as int) =~= b@.take(i - 1).push(b@[i - 1]));
    }
    assert(b@.take(i as int) =~= b@);
}

// ───────────────────────── numbers ─────────────────────────

pub open spec fn digit_char(d: nat) -> char
    recommends
        d < 10,
{
    if d == 0 {
        '0'
    } else if d == 1 {
        '1'
    } else if d == 2 {
        '2'
    } else if d == 3 {
        '3'
    } else if d == 4 {
        '4'
    } else if d == 5 {
        '5'
    } else if d == 6 {
        '6'
    } else if d == 7 {
        '7'
    } else if d == 8 {
        '8'
    } else {
        '9'
    }
}

/// Decimal digits of `n`, most significant first, no leading zeros.
pub open spec fn nat_text(n: nat) -> Seq<char>
    decreases n,
{
    if n < 10 {
        seq![digit_char(n)]
    } else {
        nat_text(n / 10).push(digit_char(n % 10))
    }
}

/// Decimal text of `i`, with a leading `-` when negative, as `Display` prints it.
pub open spec fn int_text(i: int) -> Seq<char> {
    if i < 0 {
        seq!['-'] + nat_text((-i) as nat)
    } else {
        nat_text(i as nat)
    }
}

fn digit_to_char(d: u64) -> (c: char)
    requires
        d < 10,
    ensures
        c == digit_char(d as nat),
{
    if d == 0 {
        '0'
    } else if d == 1 {
        '1'
    } else if d == 2 {
        '2'
    } else if d == 3 {
        '3'
    } else if d == 4 {
        '4'
    } else if d == 5 {
        '5'
    } else if d == 6 {
        '6'
    } else if d == 7 {
        '7'
    } else if d == 8 {
        '8'
    } else {
        '9'
    }
}

/// Decimal digits of `n`.
pub fn u64_chars(n: u64) -> (out: Vec<char>)
    ensures
        out@ == nat_text(n as nat),
    decreases n,
{
    if n < 10 {
        let mut v: Vec<char> = Vec::new();
        v.push(digit_to_char(n));
        v
    } else {
        let mut v = u64_chars(n / 10);
        v.push(digit_to_char(n % 10));
        v
    }
}

/// Decimal text of a `u64`, as `Display` prints it.
pub fn u64_text(n: u64) -> (s: String)
    ensures
        s@ == nat_text(n as nat),
{
    let v = u64_chars(n);
    string_from_chars(v.as_slice())
}

/// Decimal text of an `i64`, as `Display` prints it.
pub fn i64_text(i: i64) -> (s: String)
    ensures
        s@ == int_text(i as int),
{
    if i < 0 {
        let mag: u64 = if i == i64::MIN {
            9223372036854775808u64
        } else {
            (-i) as u64
        };
        let mut v: Vec<char> = Vec::new();
        v.push('-');
        let d = u64_chars(mag);
        push_chars(&mut v, d.as_slice());
        assert(v@ =~= seq!['-'] + nat_text((-i) as nat));
        string_from_chars(v.as_slice())
    } else {
        u64_text(i as u64)
    }
}

} // verus!
