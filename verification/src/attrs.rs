//! The attribute language of Xschem blocks: `key=value` pairs inside `{...}`.
//!
//! A value is either a double-quoted string (a backslash takes the next
//! character literally), a braced group (nested braces kept, the outer pair
//! dropped), or a bare word ending at whitespace. Braces between pairs are
//! skipped; a lone `}` where a key would start ends the list; a key without
//! `=` is dropped.

use vstd::prelude::*;
use crate::text::{is_whitespace, is_ws, string_from_chars, slice_to_vec};
use crate::textmap::{insert_all, TextMap};

verus! {

// ───────────────────────── scanning specs ─────────────────────────

/// First index at or after `i` that is not whitespace (or `s.len()`).
pub open spec fn skip_ws_idx(s: Seq<char>, i: int) -> int
    decreases s.len() - i,
{
    if 0 <= i < s.len() && is_ws(s[i]) {
        skip_ws_idx(s, i + 1)
    } else {
        i
    }
}

pub proof fn lemma_skip_ws_idx(s: Seq<char>, i: int)
    requires
        0 <= i <= s.len(),
    ensures
        i <= skip_ws_idx(s, i) <= s.len(),
        forall|j: int| i <= j < skip_ws_idx(s, i) ==> is_ws(#[trigger] s[j]),
        skip_ws_idx(s, i) < s.len() ==> !is_ws(s[skip_ws_idx(s, i)]),
    decreases s.len() - i,
{
    if i < s.len() && is_ws(s[i]) {
        lemma_skip_ws_idx(s, i + 1);
    }
}

/// A character that ends a key: `=`, whitespace or `}`.
pub open spec fn ends_key(c: char) -> bool {
    c == '=' || is_ws(c) || c == '}'
}

/// First index at or after `i` whose character ends a key (or `s.len()`).
pub open spec fn key_end(s: Seq<char>, i: int) -> int
    decreases s.len() - i,
{
    if 0 <= i < s.len() && !ends_key(s[i]) {
        key_end(s, i + 1)
    } else {
        i
    }
}

pub proof fn lemma_key_end(s: Seq<char>, i: int)
    requires
        0 <= i <= s.len(),
    ensures
        i <= key_end(s, i) <= s.len(),
    decreases s.len() - i,
{
    if i < s.len() && !ends_key(s[i]) {
        lemma_key_end(s, i + 1);
    }
}

/// First index at or after `i` that is whitespace (or `s.len()`).
pub open spec fn bare_end(s: Seq<char>, i: int) -> int
    decreases s.len() - i,
{
    if 0 <= i < s.len() && !is_ws(s[i]) {
        bare_end(s, i + 1)
    } else {
        i
    }
}

pub proof fn lemma_bare_end(s: Seq<char>, i: int)
    requires
        0 <= i <= s.len(),
    ensures
        i <= bare_end(s, i) <= s.len(),
    decreases s.len() - i,
{
    if i < s.len() && !is_ws(s[i]) {
        lemma_bare_end(s, i + 1);
    }
}

/// The next character that is neither whitespace nor `{`, and the index after it.
pub open spec fn skip_sep(s: Seq<char>, i: int) -> Option<(char, int)>
    decreases s.len() - i,
{
    let j = skip_ws_idx(s, i);
    if 0 <= i <= s.len() {
        proof {
            lemma_skip_ws_idx(s, i);
        }
        if j >= s.len() {
            None
        } else if s[j] == '{' {
            skip_sep(s, j + 1)
        } else {
            Some((s[j], j + 1))
        }
    } else {
        None
    }
}

pub proof fn lemma_skip_sep(s: Seq<char>, i: int)
    requires
        0 <= i <= s.len(),
    ensures
        skip_sep(s, i) matches Some((c, j)) ==> i < j <= s.len() && s[j - 1] == c,
    decreases s.len() - i,
{
    lemma_skip_ws_idx(s, i);
    let j = skip_ws_idx(s, i);
    if j < s.len() && s[j] == '{' {
        lemma_skip_sep(s, j + 1);
    }
}

/// A double-quoted value read from `i` (just after the opening quote), and
/// the index after it. `escaped` means the previous character was a backslash.
pub open spec fn quoted_from(s: Seq<char>, i: int, escaped: bool) -> (Seq<char>, int)
    decreases s.len() - i,
{
    if i < 0 || i >= s.len() {
        (Seq::empty(), i)
    } else if escaped {
        let r = quoted_from(s, i + 1, false);
        (seq![s[i]] + r.0, r.1)
    } else if s[i] == '\\' {
        quoted_from(s, i + 1, true)
    } else if s[i] == '"' {
        (Seq::empty(), i + 1)
    } else {
        let r = quoted_from(s, i + 1, false);
        (seq![s[i]] + r.0, r.1)
    }
}

/// A braced value read from `i` at nesting `depth` (one just after the
/// opening brace), and the index after it.
pub open spec fn braced_from(s: Seq<char>, i: int, depth: nat) -> (Seq<char>, int)
    decreases s.len() - i,
{
    if i < 0 || i >= s.len() {
        (Seq::empty(), i)
    } else if s[i] == '{' {
        let r = braced_from(s, i + 1, depth + 1);
        (seq![s[i]] + r.0, r.1)
    } else if s[i] == '}' {
        if depth <= 1 {
            (Seq::empty(), i + 1)
        } else {
            let r = braced_from(s, i + 1, (depth - 1) as nat);
            (seq![s[i]] + r.0, r.1)
        }
    } else {
        let r = braced_from(s, i + 1, depth);
        (seq![s[i]] + r.0, r.1)
    }
}

pub proof fn lemma_quoted_from(s: Seq<char>, i: int, escaped: bool)
    requires
        0 <= i <= s.len(),
    ensures
        i <= quoted_from(s, i, escaped).1 <= s.len(),
    decreases s.len() - i,
{
    if i < s.len() {
        if escaped || s[i] != '"' {
            lemma_quoted_from(s, i + 1, !escaped && s[i] == '\\');
        }
    }
}

pub proof fn lemma_braced_from(s: Seq<char>, i: int, depth: nat)
    requires
        0 <= i <= s.len(),
    ensures
        i <= braced_from(s, i, depth).1 <= s.len(),
    decreases s.len() - i,
{
    if i < s.len() {
        if s[i] == '{' {
            lemma_braced_from(s, i + 1, depth + 1);
        } else if s[i] == '}' {
            if depth > 1 {
                lemma_braced_from(s, i + 1, (depth - 1) as nat);
            }
        } else {
            lemma_braced_from(s, i + 1, depth);
        }
    }
}

/// The value that starts at `i`, and the index after it.
pub open spec fn value_at(s: Seq<char>, i: int) -> (Seq<char>, int) {
    if i < 0 || i >= s.len() {
        (Seq::empty(), i)
    } else if s[i] == '"' {
        quoted_from(s, i + 1, false)
    } else if s[i] == '{' {
        braced_from(s, i + 1, 1)
    } else {
        (s.subrange(i, bare_end(s, i)), bare_end(s, i))
    }
}

pub proof fn lemma_value_at(s: Seq<char>, i: int)
    requires
        0 <= i <= s.len(),
    ensures
        i <= value_at(s, i).1 <= s.len(),
{
    if i < s.len() {
        if s[i] == '"' {
            lemma_quoted_from(s, i + 1, false);
        } else if s[i] == '{' {
            lemma_braced_from(s, i + 1, 1);
        } else {
            lemma_bare_end(s, i);
        }
    }
}

/// The `(key, value)` pairs read from index `i` on, in the order they appear.
pub open spec fn attr_pairs(s: Seq<char>, i: int) -> Seq<(Seq<char>, Seq<char>)>
    decreases s.len() - i,
{
    if 0 <= i <= s.len() {
        proof {
            lemma_skip_sep(s, i);
        }
        match skip_sep(s, i) {
            None => Seq::empty(),
            Some((ch, j)) => if ch == '}' {
                Seq::empty()
            } else {
                proof {
                    lemma_key_end(s, j);
                }
                let ke = key_end(s, j);
                let key = seq![ch] + s.subrange(j, ke);
                proof {
                    lemma_skip_ws_idx(s, ke);
                }
                let w = skip_ws_idx(s, ke);
                if w >= s.len() || s[w] != '=' {
                    attr_pairs(s, w)
                } else {
                    proof {
                        lemma_skip_ws_idx(s, w + 1);
                    }
                    let v0 = skip_ws_idx(s, w + 1);
                    proof {
                        lemma_value_at(s, v0);
                    }
                    let (val, after) = value_at(s, v0);
                    seq![(key, val)] + attr_pairs(s, after)
                }
            },
        }
    } else {
        Seq::empty()
    }
}

/// The attributes of `raw`: later pairs replace earlier ones with the same key.
pub open spec fn attr_map(raw: Seq<char>) -> Seq<(Seq<char>, Seq<char>)> {
    insert_all(Seq::empty(), attr_pairs(raw, 0))
}

// ───────────────────────── laws ─────────────────────────

proof fn lemma_quoted_plain(s: Seq<char>, i: int, t: Seq<char>)
    requires
        0 <= i,
        i + t.len() < s.len(),
        s.subrange(i, i + t.len()) == t,
        s[i + t.len()] == '"',
        forall|x: int| 0 <= x < t.len() ==> t[x] != '"' && t[x] != '\\',
    ensures
        quoted_from(s, i, false) == (t, i + t.len() + 1),
    decreases t.len(),
{
    if t.len() > 0 {
        let u = t.drop_first();
        assert(s[i] == s.subrange(i, i + t.len())[0]);
        assert(s.subrange(i + 1, i + 1 + u.len()) =~= u) by {
            assert forall|x: int| 0 <= x < u.len() implies s.subrange(i + 1, i + 1 + u.len())[x] == u[x] by {
                assert(s.subrange(i, i + t.len())[x + 1] == t[x + 1]);
            }
        }
        lemma_quoted_plain(s, i + 1, u);
        assert(seq![t[0]] + u =~= t);
    }
}

proof fn lemma_key_end_at(s: Seq<char>, j: int, e: int)
    requires
        0 <= j <= e < s.len(),
        forall|x: int| j <= x < e ==> !ends_key(#[trigger] s[x]),
        ends_key(s[e]),
    ensures
        key_end(s, j) == e,
    decreases e - j,
{
    if j < e {
        lemma_key_end_at(s, j + 1, e);
    }
}

/// A double-quoted value is everything up to its closing quote, spaces
/// included: for a key `k` (no `=`, whitespace or braces in it) and a text
/// `t` with no quote or backslash, the attributes of `k="t"` are exactly `k`
/// mapped to `t`.
pub proof fn lemma_quoted_value_is_whole(k: Seq<char>, t: Seq<char>)
    requires
        k.len() > 0,
        forall|x: int| 0 <= x < k.len() ==> !ends_key(#[trigger] k[x]) && k[x] != '{',
        forall|x: int| 0 <= x < t.len() ==> #[trigger] t[x] != '"' && t[x] != '\\',
    ensures
        attr_map(k + seq!['=', '"'] + t + seq!['"']) == seq![(k, t)],
{
    let s = k + seq!['=', '"'] + t + seq!['"'];
    let n = k.len() as int;
    assert(s[0] == k[0]);
    assert(!is_ws(s[0]));
    assert(skip_ws_idx(s, 0) == 0);
    assert(skip_sep(s, 0) == Some((k[0], 1int)));
    assert(s[n] == '=');
    assert forall|x: int| 1 <= x < n implies !ends_key(#[trigger] s[x]) by {
        assert(s[x] == k[x]);
    }
    lemma_key_end_at(s, 1, n);
    assert(seq![k[0]] + s.subrange(1, n) =~= k);
    assert(skip_ws_idx(s, n) == n);
    assert(s[n + 1] == '"');
    assert(skip_ws_idx(s, n + 1) == n + 1);
    assert(s.subrange(n + 2, n + 2 + t.len()) =~= t);
    assert(s[n + 2 + t.len()] == '"');
    lemma_quoted_plain(s, n + 2, t);
    assert(value_at(s, n + 1) == (t, s.len() as int));
    assert(skip_ws_idx(s, s.len() as int) == s.len());
    assert(attr_pairs(s, s.len() as int) =~= Seq::<(Seq<char>, Seq<char>)>::empty());
    assert(attr_pairs(s, 0) =~= seq![(k, t)]);
    let items = seq![(k, t)];
    assert(items.drop_last() =~= Seq::<(Seq<char>, Seq<char>)>::empty());
    assert(insert_all(Seq::<(Seq<char>, Seq<char>)>::empty(), items.drop_last()) =~= Seq::<(Seq<char>, Seq<char>)>::empty());
    assert(crate::textmap::insert_pos(Seq::<(Seq<char>, Seq<char>)>::empty(), k) == 0);
    assert(Seq::<(Seq<char>, Seq<char>)>::empty().insert(0, (k, t)) =~= seq![(k, t)]);
}

proof fn lemma_bare_end_at(s: Seq<char>, i: int, e: int)
    requires
        0 <= i <= e <= s.len(),
        forall|x: int| i <= x < e ==> !is_ws(#[trigger] s[x]),
        e == s.len() || is_ws(s[e]),
    ensures
        bare_end(s, i) == e,
    decreases e - i,
{
    if i < e {
        lemma_bare_end_at(s, i + 1, e);
    }
}

proof fn lemma_braced_plain(s: Seq<char>, i: int, t: Seq<char>)
    requires
        0 <= i,
        i + t.len() < s.len(),
        s.subrange(i, i + t.len()) == t,
        s[i + t.len()] == '}',
        forall|x: int| 0 <= x < t.len() ==> t[x] != '{' && t[x] != '}',
    ensures
        braced_from(s, i, 1) == (t, i + t.len() + 1),
    decreases t.len(),
{
    if t.len() > 0 {
        let u = t.drop_first();
        assert(s[i] == s.subrange(i, i + t.len())[0]);
        assert(s.subrange(i + 1, i + 1 + u.len()) =~= u) by {
            assert forall|x: int| 0 <= x < u.len() implies s.subrange(i + 1, i + 1 + u.len())[x] == u[x] by {
                assert(s.subrange(i, i + t.len())[x + 1] == t[x + 1]);
            }
        }
        lemma_braced_plain(s, i + 1, u);
        assert(seq![t[0]] + u =~= t);
    }
}

/// The attributes of `k=` then a value `v` that runs to the end of the text
/// and whose reading from its first character gives `val` and ends at the
/// end of the text: `k` mapped to `val`.
proof fn lemma_single_pair(k: Seq<char>, v: Seq<char>, val: Seq<char>)
    requires
        k.len() > 0,
        forall|x: int| 0 <= x < k.len() ==> !ends_key(#[trigger] k[x]) && k[x] != '{',
        v.len() > 0,
        !is_ws(v[0]),
        value_at(k + seq!['='] + v, k.len() + 1 as int) == (val, (k.len() + 1 + v.len()) as int),
    ensures
        attr_map(k + seq!['='] + v) == seq![(k, val)],
{
    let s = k + seq!['='] + v;
    let n = k.len() as int;
    assert(s[0] == k[0]);
    assert(skip_ws_idx(s, 0) == 0);
    assert(skip_sep(s, 0) == Some((k[0], 1int)));
    assert(s[n] == '=');
    assert forall|x: int| 1 <= x < n implies !ends_key(#[trigger] s[x]) by {
        assert(s[x] == k[x]);
    }
    lemma_key_end_at(s, 1, n);
    assert(seq![k[0]] + s.subrange(1, n) =~= k);
    assert(skip_ws_idx(s, n) == n);
    assert(s[n + 1] == v[0]);
    assert(skip_ws_idx(s, n + 1) == n + 1);
    assert(skip_ws_idx(s, s.len() as int) == s.len());
    assert(attr_pairs(s, s.len() as int) =~= Seq::<(Seq<char>, Seq<char>)>::empty());
    assert(attr_pairs(s, 0) =~= seq![(k, val)]);
    let items = seq![(k, val)];
    assert(items.drop_last() =~= Seq::<(Seq<char>, Seq<char>)>::empty());
    assert(insert_all(Seq::<(Seq<char>, Seq<char>)>::empty(), items.drop_last()) =~= Seq::<(Seq<char>, Seq<char>)>::empty());
    assert(crate::textmap::insert_pos(Seq::<(Seq<char>, Seq<char>)>::empty(), k) == 0);
    assert(Seq::<(Seq<char>, Seq<char>)>::empty().insert(0, (k, val)) =~= seq![(k, val)]);
}

/// A bare value is the word after `=`: for a key `k` and a word `w` with no
/// whitespace that does not start with a quote or a brace, the attributes of
/// `k=w` are exactly `k` mapped to `w`.
pub proof fn lemma_bare_value_is_the_word(k: Seq<char>, w: Seq<char>)
    requires
        k.len() > 0,
        forall|x: int| 0 <= x < k.len() ==> !ends_key(#[trigger] k[x]) && k[x] != '{',
        w.len() > 0,
        w[0] != '"' && w[0] != '{',
        forall|x: int| 0 <= x < w.len() ==> !is_ws(#[trigger] w[x]),
    ensures
        attr_map(k + seq!['='] + w) == seq![(k, w)],
{
    let s = k + seq!['='] + w;
    let n = k.len() as int;
    assert forall|x: int| n + 1 <= x < s.len() implies !is_ws(#[trigger] s[x]) by {
        assert(s[x] == w[x - n - 1]);
    }
    lemma_bare_end_at(s, n + 1, s.len() as int);
    assert(s[n + 1] == w[0]);
    assert(s.subrange(n + 1, s.len() as int) =~= w);
    lemma_single_pair(k, w, w);
}

/// A braced value is what the braces hold: for a key `k` and a text `t`
/// without braces, the attributes of `k={t}` are exactly `k` mapped to `t`.
pub proof fn lemma_braced_value_is_inside(k: Seq<char>, t: Seq<char>)
    requires
        k.len() > 0,
        forall|x: int| 0 <= x < k.len() ==> !ends_key(#[trigger] k[x]) && k[x] != '{',
        forall|x: int| 0 <= x < t.len() ==> #[trigger] t[x] != '{' && t[x] != '}',
    ensures
        attr_map(k + seq!['='] + (seq!['{'] + t + seq!['}'])) == seq![(k, t)],
{
    let v = seq!['{'] + t + seq!['}'];
    let s = k + seq!['='] + v;
    let n = k.len() as int;
    assert(s[n + 1] == '{');
    assert(s.subrange(n + 2, n + 2 + t.len()) =~= t);
    assert(s[n + 2 + t.len()] == '}');
    lemma_braced_plain(s, n + 2, t);
    assert(v[0] == '{');
    lemma_single_pair(k, v, t);
}

/// A backslash in a quoted value takes the next character as it is, a
/// quote included: for texts `t1`, `t2` with no quote or backslash and any
/// character `c`, the attributes of `k="t1\ct2"` are `k` mapped to
/// `t1`, `c`, `t2`.
pub proof fn lemma_escaped_character_is_kept(k: Seq<char>, t1: Seq<char>, c: char, t2: Seq<char>)
    requires
        k.len() > 0,
        forall|x: int| 0 <= x < k.len() ==> !ends_key(#[trigger] k[x]) && k[x] != '{',
        forall|x: int| 0 <= x < t1.len() ==> #[trigger] t1[x] != '"' && t1[x] != '\\',
        forall|x: int| 0 <= x < t2.len() ==> #[trigger] t2[x] != '"' && t2[x] != '\\',
    ensures
        attr_map(k + seq!['='] + (seq!['"'] + t1 + seq!['\\', c] + t2 + seq!['"'])) == seq![
            (k, t1 + seq![c] + t2),
        ],
{
    let v = seq!['"'] + t1 + seq!['\\', c] + t2 + seq!['"'];
    let s = k + seq!['='] + v;
    let n = k.len() as int;
    let p = n + 2 + t1.len();
    assert(s[p] == '\\');
    assert(s[p + 1] == c);
    assert(s.subrange(p + 2, p + 2 + t2.len()) =~= t2);
    assert(s[p + 2 + t2.len()] == '"');
    lemma_quoted_plain(s, p + 2, t2);
    assert(quoted_from(s, p + 1, true) == (seq![c] + t2, s.len() as int));
    assert(quoted_from(s, p, false) == (seq![c] + t2, s.len() as int));
    assert(s.subrange(n + 2, p) =~= t1);
    lemma_quoted_prefix(s, n + 2, t1, p);
    assert(t1 + (seq![c] + t2) =~= t1 + seq![c] + t2);
    assert(v[0] == '"');
    lemma_single_pair(k, v, t1 + seq![c] + t2);
}

proof fn lemma_quoted_prefix(s: Seq<char>, i: int, t: Seq<char>, p: int)
    requires
        0 <= i,
        p == i + t.len(),
        p <= s.len(),
        s.subrange(i, p) == t,
        forall|x: int| 0 <= x < t.len() ==> t[x] != '"' && t[x] != '\\',
    ensures
        quoted_from(s, i, false) == (t + quoted_from(s, p, false).0, quoted_from(s, p, false).1),
    decreases t.len(),
{
    if t.len() > 0 {
        let u = t.drop_first();
        assert(s[i] == s.subrange(i, p)[0]);
        assert(s.subrange(i + 1, p) =~= u) by {
            assert forall|x: int| 0 <= x < u.len() implies s.subrange(i + 1, p)[x] == u[x] by {
                assert(s.subrange(i, p)[x + 1] == t[x + 1]);
            }
        }
        lemma_quoted_prefix(s, i + 1, u, p);
        assert(seq![t[0]] + (u + quoted_from(s, p, false).0) =~= t + quoted_from(s, p, false).0);
    } else {
        assert(t + quoted_from(s, p, false).0 =~= quoted_from(s, p, false).0);
    }
}

// ───────────────────────── exec scanning ─────────────────────────

fn skip_ws_at(s: &[char], i: usize) -> (j: usize)
    requires
        i <= s@.len(),
    ensures
        j == skip_ws_idx(s@, i as int),
{
    let mut j = i;
    proof {
        lemma_skip_ws_idx(s@, i as int);
    }
    while j < s.len() && is_whitespace(s[j])
        invariant
            i <= j <= s@.len(),
            skip_ws_idx(s@, i as int) == skip_ws_idx(s@, j as int),
        decreases s@.len() - j,
    {
        j = j + 1;
    }
    j
}

fn skip_sep_at(s: &[char], i: usize) -> (r: Option<(char, usize)>)
    requires
        i <= s@.len(),
    ensures
        match r {
            None => skip_sep(s@, i as int) is None,
            Some((c, j)) => skip_sep(s@, i as int) == Some((c, j as int)),
        },
{
    let mut k = i;
    while k <= s.len()
        invariant
            i <= k <= s@.len(),
            skip_sep(s@, i as int) == skip_sep(s@, k as int),
        decreases s@.len() - k,
    {
        let j = skip_ws_at(s, k);
        proof {
            lemma_skip_ws_idx(s@, k as int);
        }
        if j >= s.len() {
            return None;
        }
        if s[j] == '{' {
            k = j + 1;
        } else {
            return Some((s[j], j + 1));
        }
    }
    None
}

fn key_end_at(s: &[char], i: usize) -> (j: usize)
    requires
        i <= s@.len(),
    ensures
        j == key_end(s@, i as int),
{
    let mut j = i;
    while j < s.len() && !(s[j] == '=' || is_whitespace(s[j]) || s[j] == '}')
        invariant
            i <= j <= s@.len(),
            key_end(s@, i as int) == key_end(s@, j as int),
        decreases s@.len() - j,
    {
        j = j + 1;
    }
    j
}

fn bare_end_at(s: &[char], i: usize) -> (j: usize)
    requires
        i <= s@.len(),
    ensures
        j == bare_end(s@, i as int),
{
    let mut j = i;
    while j < s.len() && !is_whitespace(s[j])
        invariant
            i <= j <= s@.len(),
            bare_end(s@, i as int) == bare_end(s@, j as int),
        decreases s@.len() - j,
    {
        j = j + 1;
    }
    j
}

fn quoted_at(s: &[char], i: usize) -> (r: (Vec<char>, usize))
    requires
        i <= s@.len(),
    ensures
        (r.0@, r.1 as int) == quoted_from(s@, i as int, false),
{
    let mut out: Vec<char> = Vec::new();
    let mut j = i;
    let mut escaped = false;
    while j < s.len()
        invariant
            i <= j <= s@.len(),
            quoted_from(s@, i as int, false) == (out@ + quoted_from(s@, j as int, escaped).0,
                quoted_from(s@, j as int, escaped).1),
        decreases s@.len() - j,
    {
        let ch = s[j];
        if escaped {
            out.push(ch);
            escaped = false;
            proof {
                assert(out@ + quoted_from(s@, j + 1, false).0 =~= out@.drop_last() + (seq![ch]
                    + quoted_from(s@, j + 1, false).0));
            }
        } else if ch == '\\' {
            escaped = true;
        } else if ch == '"' {
            assert(out@ + Seq::<char>::empty() =~= out@);
            return (out, j + 1);
        } else {
            out.push(ch);
            proof {
                assert(out@ + quoted_from(s@, j + 1, false).0 =~= out@.drop_last() + (seq![ch]
                    + quoted_from(s@, j + 1, false).0));
            }
        }
        j = j + 1;
    }
    assert(out@ + Seq::<char>::empty() =~= out@);
    (out, j)
}

fn braced_at(s: &[char], i: usize) -> (r: (Vec<char>, usize))
    requires
        i <= s@.len(),
    ensures
        (r.0@, r.1 as int) == braced_from(s@, i as int, 1),
{
    let mut out: Vec<char> = Vec::new();
    let mut j = i;
    let mut depth: u128 = 1;
    while j < s.len()
        invariant
            i <= j <= s@.len(),
            1 <= depth <= j - i + 1,
            braced_from(s@, i as int, 1) == (out@ + braced_from(s@, j as int, depth as nat).0,
                braced_from(s@, j as int, depth as nat).1),
        decreases s@.len() - j,
    {
        let ch = s[j];
        if ch == '{' {
            depth = depth + 1;
            out.push(ch);
            proof {
                assert(out@ + braced_from(s@, j + 1, depth as nat).0 =~= out@.drop_last() + (
                seq![ch] + braced_from(s@, j + 1, depth as nat).0));
            }
        } else if ch == '}' {
            if depth <= 1 {
                assert(out@ + Seq::<char>::empty() =~= out@);
                return (out, j + 1);
            }
            depth = depth - 1;
            out.push(ch);
            proof {
                assert(out@ + braced_from(s@, j + 1, depth as nat).0 =~= out@.drop_last() + (
                seq![ch] + braced_from(s@, j + 1, depth as nat).0));
            }
        } else {
            out.push(ch);
            proof {
                assert(out@ + braced_from(s@, j + 1, depth as nat).0 =~= out@.drop_last() + (
                seq![ch] + braced_from(s@, j + 1, depth as nat).0));
            }
        }
        j = j + 1;
    }
    assert(out@ + Seq::<char>::empty() =~= out@);
    (out, j)
}

fn value_at_exec(s: &[char], i: usize) -> (r: (Vec<char>, usize))
    requires
        i <= s@.len(),
    ensures
        (r.0@, r.1 as int) == value_at(s@, i as int),
{
    if i >= s.len() {
        (Vec::new(), i)
    } else if s[i] == '"' {
        quoted_at(s, i + 1)
    } else if s[i] == '{' {
        braced_at(s, i + 1)
    } else {
        let e = bare_end_at(s, i);
        proof {
            lemma_bare_end(s@, i as int);
        }
        (slice_to_vec(s, i, e), e)
    }
}

/// Reads the attribute pairs of `raw` into a map; a later pair replaces an
/// earlier one with the same key.
pub fn parse_attrs(raw: &[char]) -> (m: TextMap<String>)
    ensures
        m.wf(),
        m@ == attr_map(raw@),
{
    let mut m: TextMap<String> = TextMap::new();
    let mut i: usize = 0;
    let ghost mut done: Seq<(Seq<char>, Seq<char>)> = Seq::empty();
    loop
        invariant
            i <= raw@.len(),
            m.wf(),
            m@ == insert_all(Seq::empty(), done),
            attr_pairs(raw@, 0) == done + attr_pairs(raw@, i as int),
        ensures
            m.wf(),
            m@ == insert_all(Seq::empty(), done),
            attr_pairs(raw@, 0) == done,
        decreases raw@.len() - i,
    {
        proof {
            lemma_skip_sep(raw@, i as int);
        }
        let sep = skip_sep_at(raw, i);
        match sep {
            None => {
                assert(attr_pairs(raw@, i as int) =~= Seq::<(Seq<char>, Seq<char>)>::empty());
                assert(done + Seq::<(Seq<char>, Seq<char>)>::empty() =~= done);
                break;
            },
            Some((ch, j)) => {
                if ch == '}' {
                    assert(attr_pairs(raw@, i as int) =~= Seq::<(Seq<char>, Seq<char>)>::empty());
                    assert(done + Seq::<(Seq<char>, Seq<char>)>::empty() =~= done);
                    break;
                }
                let ke = key_end_at(raw, j);
                proof {
                    lemma_key_end(raw@, j as int);
                }
                let mut key: Vec<char> = Vec::new();
                key.push(ch);
                let rest = slice_to_vec(raw, j, ke);
                crate::text::push_chars(&mut key, rest.as_slice());
                let w = skip_ws_at(raw, ke);
                proof {
                    lemma_skip_ws_idx(raw@, ke as int);
                }
                if w >= raw.len() || raw[w] != '=' {
                    i = w;
                } else {
                    let v0 = skip_ws_at(raw, w + 1);
                    proof {
                        lemma_skip_ws_idx(raw@, w + 1);
                        lemma_value_at(raw@, v0 as int);
                    }
                    let (val, after) = value_at_exec(raw, v0);
                    let ghost pair = (key@, val@);
                    let ks = string_from_chars(key.as_slice());
                    let vs = string_from_chars(val.as_slice());
                    m.insert(ks, vs);
                    proof {
                        assert(key@ =~= seq![ch] + raw@.subrange(j as int, ke as int));
                        let nd = done.push(pair);
                        assert(nd.drop_last() =~= done);
                        assert(done + attr_pairs(raw@, i as int) =~= nd + attr_pairs(
                            raw@,
                            after as int,
                        ));
                        done = nd;
                    }
                    i = after;
                }
            },
        }
    }
    m
}

} // verus!
