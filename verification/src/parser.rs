//! Reader for Xschem `.sch` text.
//!
//! The file is read line by line. Three kinds of line matter:
//! - `C {symbol} x y rot mirror {attrs}`: a component; its attribute block may
//!   run over several lines, up to a line that ends in `}` (a line holding
//!   only `}` or `"}` closes it and adds nothing);
//! - `N x1 y1 x2 y2 {attrs}`: a wire, whose `lab` attribute names its net;
//! - `L ... {attrs}`: a net label, whose `lab` attribute names a net.
//! Every other line is ignored. A component needs a `name` attribute; a later
//! component with the same name replaces the earlier one.

use vstd::prelude::*;
use crate::attrs::{attr_map, lemma_skip_ws_idx, parse_attrs, skip_ws_idx};
use crate::models::{Component, ComponentView, FileFormat, Schematic, SchematicView, Wire, WireView};
use crate::text::{chars_of, contains_seq, is_whitespace, ltrim, rtrim, slice_to_vec, str_contains, string_from_chars, trim, trim_bounds, trim_end_from};
use crate::textmap::{
    has_key, keys_sorted, lemma_insert_all_sorted, lemma_lookup_index, lemma_lookup_some, lemma_remove_key_sorted,
    lemma_seq_insert_lookup, lemma_seq_insert_sorted, lookup, remove_key, seq_insert,
};

verus! {

// ───────────────────────── decoding ─────────────────────────

/// Text decoded from bytes as `String::from_utf8_lossy` does: invalid
/// sequences become U+FFFD.
pub uninterp spec fn lossy_text(bytes: Seq<u8>) -> Seq<char>;

/// Calls `String::from_utf8_lossy`. Claims: the result is `lossy_text` of the
/// bytes (it depends on them alone), and bytes that are valid UTF-8 decode to
/// their characters, as the std documentation states.
#[verifier::external_body]
pub(crate) fn decode_lossy(bytes: &[u8]) -> (s: String)
    ensures
        s@ == lossy_text(bytes@),
        vstd::utf8::valid_utf8(bytes@) ==> s@ == vstd::utf8::decode_utf8(bytes@),
{
    String::from_utf8_lossy(bytes).into_owned()
}

// ───────────────────────── lines ─────────────────────────

/// Index of the first `\n` at or after `i` (or `t.len()`).
pub open spec fn newline_at(t: Seq<char>, i: int) -> int
    decreases t.len() - i,
{
    if 0 <= i < t.len() && t[i] != '\n' {
        newline_at(t, i + 1)
    } else {
        i
    }
}

pub proof fn lemma_newline_at(t: Seq<char>, i: int)
    requires
        0 <= i <= t.len(),
    ensures
        i <= newline_at(t, i) <= t.len(),
        forall|j: int| i <= j < newline_at(t, i) ==> #[trigger] t[j] != '\n',
        newline_at(t, i) < t.len() ==> t[newline_at(t, i)] == '\n',
    decreases t.len() - i,
{
    if i < t.len() && t[i] != '\n' {
        lemma_newline_at(t, i + 1);
    }
}

/// A line ended by `\n` loses a final `\r` too.
pub open spec fn strip_cr(l: Seq<char>) -> Seq<char> {
    if l.len() > 0 && l.last() == '\r' {
        l.drop_last()
    } else {
        l
    }
}

/// The lines from index `i` on, as `str::lines` splits them.
pub open spec fn lines_from(t: Seq<char>, i: int) -> Seq<Seq<char>>
    decreases t.len() - i,
{
    if i < 0 || i >= t.len() {
        Seq::empty()
    } else {
        let e = newline_at(t, i);
        proof {
            lemma_newline_at(t, i);
        }
        if e < t.len() {
            seq![strip_cr(t.subrange(i, e))] + lines_from(t, e + 1)
        } else {
            seq![t.subrange(i, t.len() as int)]
        }
    }
}

/// The lines of `t`, as `str::lines` splits them.
pub open spec fn lines_of(t: Seq<char>) -> Seq<Seq<char>> {
    lines_from(t, 0)
}

/// Splits text into lines as `str::lines` does.
pub fn split_lines(t: &[char]) -> (out: Vec<Vec<char>>)
    ensures
        out@.map_values(|l: Vec<char>| l@) == lines_of(t@),
{
    let mut out: Vec<Vec<char>> = Vec::new();
    let mut i: usize = 0;
    while i < t.len()
        invariant
            i <= t@.len(),
            out@.map_values(|l: Vec<char>| l@) + lines_from(t@, i as int) == lines_of(t@),
        decreases t@.len() - i,
    {
        let mut e = i;
        while e < t.len() && t[e] != '\n'
            invariant
                i <= e <= t@.len(),
                newline_at(t@, i as int) == newline_at(t@, e as int),
            decreases t@.len() - e,
        {
            e = e + 1;
        }
        let ghost before = out@.map_values(|l: Vec<char>| l@);
        if e < t.len() {
            let mut line = slice_to_vec(t, i, e);
            if line.len() > 0 && line[line.len() - 1] == '\r' {
                line.pop();
            }
            assert(line@ == strip_cr(t@.subrange(i as int, e as int)));
            out.push(line);
            assert(out@.map_values(|l: Vec<char>| l@) =~= before.push(
                strip_cr(t@.subrange(i as int, e as int)),
            ));
            assert(before + lines_from(t@, i as int) =~= out@.map_values(|l: Vec<char>| l@)
                + lines_from(t@, e + 1));
            i = e + 1;
        } else {
            let line = slice_to_vec(t, i, e);
            out.push(line);
            assert(out@.map_values(|l: Vec<char>| l@) =~= before.push(
                t@.subrange(i as int, t@.len() as int),
            ));
            assert(lines_from(t@, t@.len() as int) =~= Seq::<Seq<char>>::empty());
            assert(before + lines_from(t@, i as int) =~= out@.map_values(|l: Vec<char>| l@)
                + lines_from(t@, t@.len() as int));
            i = e;
        }
    }
    assert(lines_from(t@, i as int) =~= Seq::<Seq<char>>::empty());
    assert(out@.map_values(|l: Vec<char>| l@) + Seq::<Seq<char>>::empty() =~= out@.map_values(
        |l: Vec<char>| l@,
    ));
    out
}

// ───────────────────────── fields ─────────────────────────

pub open spec fn is_digit(c: char) -> bool {
    '0' <= c && c <= '9'
}

/// Characters a coordinate field is made of.
pub open spec fn is_coord_char(c: char) -> bool {
    c == '-' || c == '+' || is_digit(c) || c == '.' || c == 'e' || c == 'E'
}

/// End of the run of coordinate characters starting at `i`.
pub open spec fn coord_end(t: Seq<char>, i: int) -> int
    decreases t.len() - i,
{
    if 0 <= i < t.len() && is_coord_char(t[i]) {
        coord_end(t, i + 1)
    } else {
        i
    }
}

/// End of the run of ASCII digits starting at `i`.
pub open spec fn digits_end(t: Seq<char>, i: int) -> int
    decreases t.len() - i,
{
    if 0 <= i < t.len() && is_digit(t[i]) {
        digits_end(t, i + 1)
    } else {
        i
    }
}

pub proof fn lemma_coord_end(t: Seq<char>, i: int)
    requires
        0 <= i <= t.len(),
    ensures
        i <= coord_end(t, i) <= t.len(),
        forall|j: int| i <= j < coord_end(t, i) ==> is_coord_char(#[trigger] t[j]),
    decreases t.len() - i,
{
    if i < t.len() && is_coord_char(t[i]) {
        lemma_coord_end(t, i + 1);
    }
}

pub proof fn lemma_digits_end(t: Seq<char>, i: int)
    requires
        0 <= i <= t.len(),
    ensures
        i <= digits_end(t, i) <= t.len(),
        forall|j: int| i <= j < digits_end(t, i) ==> is_digit(#[trigger] t[j]),
        digits_end(t, i) < t.len() ==> !is_digit(t[digits_end(t, i)]),
    decreases t.len() - i,
{
    if i < t.len() && is_digit(t[i]) {
        lemma_digits_end(t, i + 1);
    }
}

/// End of an integer field (`-` then digits) starting at `a`, or `a` when
/// there is none.
pub open spec fn int_field_end(t: Seq<char>, a: int) -> int {
    let s = if 0 <= a < t.len() && t[a] == '-' {
        a + 1
    } else {
        a
    };
    let e = digits_end(t, s);
    if e == s {
        a
    } else {
        e
    }
}

/// Whitespace (at least one) then a field of coordinate characters, or of an
/// integer when `int_field`; the field's bounds.
pub open spec fn ws_field(t: Seq<char>, i: int, int_field: bool) -> Option<(int, int)> {
    let a = skip_ws_idx(t, i);
    if a == i {
        None
    } else {
        let b = if int_field {
            int_field_end(t, a)
        } else {
            coord_end(t, a)
        };
        if b == a {
            None
        } else {
            Some((a, b))
        }
    }
}

pub proof fn lemma_ws_field(t: Seq<char>, i: int, int_field: bool)
    requires
        0 <= i <= t.len(),
    ensures
        ws_field(t, i, int_field) matches Some((a, b)) ==> i < a < b <= t.len(),
{
    lemma_skip_ws_idx(t, i);
    let a = skip_ws_idx(t, i);
    lemma_coord_end(t, a);
    if a < t.len() && t[a] == '-' {
        lemma_digits_end(t, a + 1);
    } else {
        lemma_digits_end(t, a);
    }
}

/// Index of the first `}` at or after `i` (or `t.len()`).
pub open spec fn close_brace_at(t: Seq<char>, i: int) -> int
    decreases t.len() - i,
{
    if 0 <= i < t.len() && t[i] != '}' {
        close_brace_at(t, i + 1)
    } else {
        i
    }
}

pub proof fn lemma_close_brace_at(t: Seq<char>, i: int)
    requires
        0 <= i <= t.len(),
    ensures
        i <= close_brace_at(t, i) <= t.len(),
        close_brace_at(t, i) < t.len() ==> t[close_brace_at(t, i)] == '}',
    decreases t.len() - i,
{
    if i < t.len() && t[i] != '}' {
        lemma_close_brace_at(t, i + 1);
    }
}

/// Whitespace (at least one) then `{` at index `i`; the index after the brace.
pub open spec fn ws_open_brace(t: Seq<char>, i: int) -> Option<int> {
    let c = skip_ws_idx(t, i);
    if c == i || c >= t.len() || t[c] != '{' {
        None
    } else {
        Some(c + 1)
    }
}

// ───────────────────────── literals ─────────────────────────

/// A number as `f64::from_str` reads it, restricted to the characters a
/// coordinate field can hold: an optional sign, digits with an optional
/// decimal point (at least one digit), and an optional exponent.
pub open spec fn is_float_literal(s: Seq<char>) -> bool {
    let a: int = if s.len() > 0 && (s[0] == '+' || s[0] == '-') {
        1
    } else {
        0
    };
    let b = digits_end(s, a);
    let has_point = b < s.len() && s[b] == '.';
    let c = if has_point {
        digits_end(s, b + 1)
    } else {
        b
    };
    let n_digits = if has_point {
        (b - a) + (c - b - 1)
    } else {
        b - a
    };
    n_digits > 0 && (c == s.len() || (c < s.len() && (s[c] == 'e' || s[c] == 'E') && {
        let d = if c + 1 < s.len() && (s[c + 1] == '+' || s[c + 1] == '-') {
            c + 2
        } else {
            c + 1
        };
        let e = digits_end(s, d);
        e > d && e == s.len()
    }))
}

/// Value of a run of ASCII digits.
pub open spec fn digits_value(d: Seq<char>) -> nat
    decreases d.len(),
{
    if d.len() == 0 {
        0
    } else {
        digits_value(d.drop_last()) * 10 + ((d.last() as int) - ('0' as int)) as nat
    }
}

/// The `i32` that `-?digits` denotes, when it is in range.
pub open spec fn i32_literal(s: Seq<char>) -> Option<i32> {
    let neg = s.len() > 0 && s[0] == '-';
    let a: int = if neg {
        1
    } else {
        0
    };
    if a >= s.len() || digits_end(s, a) != s.len() {
        None
    } else {
        let v = digits_value(s.subrange(a, s.len() as int)) as int;
        let w = if neg {
            -v
        } else {
            v
        };
        if i32::MIN <= w <= i32::MAX {
            Some(w as i32)
        } else {
            None
        }
    }
}

// ───────────────────────── headers ─────────────────────────

/// The parts of a component header line.
pub struct ComponentHeader {
    pub symbol: Seq<char>,
    pub x: Seq<char>,
    pub y: Seq<char>,
    pub rotation: Seq<char>,
    pub mirror: Seq<char>,
    /// The rest of the line after the `{` that opens the attributes.
    pub body: Seq<char>,
}

/// `C`, whitespace, `{symbol}`, whitespace-separated x, y, rotation and
/// mirror, whitespace, `{`, rest of line.
pub open spec fn component_header(t: Seq<char>) -> Option<ComponentHeader> {
    if t.len() == 0 || t[0] != 'C' {
        None
    } else {
        let a = skip_ws_idx(t, 1);
        if a == 1 || a >= t.len() || t[a] != '{' {
            None
        } else {
            let b = close_brace_at(t, a + 1);
            if b >= t.len() {
                None
            } else {
                match ws_field(t, b + 1, false) {
                    None => None,
                    Some((xs, xe)) => match ws_field(t, xe, false) {
                        None => None,
                        Some((ys, ye)) => match ws_field(t, ye, true) {
                            None => None,
                            Some((rs, re)) => match ws_field(t, re, true) {
                                None => None,
                                Some((ms, me)) => match ws_open_brace(t, me) {
                                    None => None,
                                    Some(c) => Some(
                                        ComponentHeader {
                                            symbol: t.subrange(a + 1, b),
                                            x: t.subrange(xs, xe),
                                            y: t.subrange(ys, ye),
                                            rotation: t.subrange(rs, re),
                                            mirror: t.subrange(ms, me),
                                            body: t.subrange(c, t.len() as int),
                                        },
                                    ),
                                },
                            },
                        },
                    },
                }
            }
        }
    }
}

/// The parts of a wire header line.
pub struct WireHeader {
    pub x1: Seq<char>,
    pub y1: Seq<char>,
    pub x2: Seq<char>,
    pub y2: Seq<char>,
    pub body: Seq<char>,
}

/// `N`, whitespace-separated x1, y1, x2, y2, whitespace, `{`, rest of line.
pub open spec fn wire_header(t: Seq<char>) -> Option<WireHeader> {
    if t.len() == 0 || t[0] != 'N' {
        None
    } else {
        match ws_field(t, 1, false) {
            None => None,
            Some((a1, b1)) => match ws_field(t, b1, false) {
                None => None,
                Some((a2, b2)) => match ws_field(t, b2, false) {
                    None => None,
                    Some((a3, b3)) => match ws_field(t, b3, false) {
                        None => None,
                        Some((a4, b4)) => match ws_open_brace(t, b4) {
                            None => None,
                            Some(c) => Some(
                                WireHeader {
                                    x1: t.subrange(a1, b1),
                                    y1: t.subrange(a2, b2),
                                    x2: t.subrange(a3, b3),
                                    y2: t.subrange(a4, b4),
                                    body: t.subrange(c, t.len() as int),
                                },
                            ),
                        },
                    },
                },
            },
        }
    }
}

// ───────────────────────── attribute blocks ─────────────────────────

/// A line that closes a multi-line block and adds nothing to it: `}` or
/// `"}` once trimmed.
pub open spec fn is_block_end(t: Seq<char>) -> bool {
    t == seq!['}'] || t == seq!['"', '}']
}

/// The block text with one more line: lines are joined by a newline.
pub open spec fn join_line(body: Seq<char>, t: Seq<char>) -> Seq<char> {
    if body.len() == 0 {
        t
    } else {
        body + seq!['\n'] + t
    }
}

/// Gathers the rest of a block from line `j` on into `body`; the block text
/// and the index of the first line after the block. A line that ends in `}`
/// is the block's last line: what stands before that brace still belongs to
/// the block.
pub open spec fn collect_more(body: Seq<char>, lines: Seq<Seq<char>>, j: int) -> (Seq<char>, int)
    decreases lines.len() - j,
{
    if j < 0 || j >= lines.len() {
        (body, j)
    } else {
        let t = trim(lines[j]);
        if is_block_end(t) {
            (body, j + 1)
        } else if t.len() > 0 && t.last() == '}' {
            (join_line(body, rtrim(t.drop_last())), j + 1)
        } else {
            collect_more(join_line(body, t), lines, j + 1)
        }
    }
}

/// The attribute text of a block whose first line part is `first`; closing on
/// the same line, or else running on from line `next`.
pub open spec fn block_body(first: Seq<char>, lines: Seq<Seq<char>>, next: int) -> (Seq<char>, int) {
    let b = trim(first);
    if b.len() > 0 && b.last() == '}' {
        (rtrim(b.drop_last()), next)
    } else {
        collect_more(b, lines, next)
    }
}

// ───────────────────────── lines to elements ─────────────────────────

/// A component line: the component (if it has a name) and the index of the
/// next unread line. The attribute block is read, and its lines consumed,
/// only once the header and its numbers are valid.
pub open spec fn component_line(t: Seq<char>, lines: Seq<Seq<char>>, next: int) -> (
    Option<ComponentView>,
    int,
) {
    match component_header(t) {
        None => (None, next),
        Some(h) => {
            if !is_float_literal(h.x) || !is_float_literal(h.y) || i32_literal(h.rotation) is None
                || i32_literal(h.mirror) is None {
                (None, next)
            } else {
                let (body, j) = block_body(h.body, lines, next);
                let attrs = attr_map(body);
                match lookup(attrs, seq!['n', 'a', 'm', 'e']) {
                    None => (None, j),
                    Some(name) => (
                        Some(
                            ComponentView {
                                name,
                                symbol: trim(h.symbol),
                                params: remove_key(attrs, seq!['n', 'a', 'm', 'e']),
                                x: h.x,
                                y: h.y,
                                rotation: i32_literal(h.rotation)->0,
                                mirror: i32_literal(h.mirror)->0,
                            },
                        ),
                        j,
                    ),
                }
            }
        },
    }
}

/// A wire line: the wire and the index of the next unread line.
pub open spec fn wire_line(t: Seq<char>, lines: Seq<Seq<char>>, next: int) -> (
    Option<WireView>,
    int,
) {
    match wire_header(t) {
        None => (None, next),
        Some(h) => {
            if !is_float_literal(h.x1) || !is_float_literal(h.y1) || !is_float_literal(h.x2)
                || !is_float_literal(h.y2) {
                (None, next)
            } else {
                let (body, j) = block_body(h.body, lines, next);
                let attrs = attr_map(body);
                let label = match lookup(attrs, seq!['l', 'a', 'b']) {
                    Some(l) => l,
                    None => Seq::empty(),
                };
                (Some(WireView { x1: h.x1, y1: h.y1, x2: h.x2, y2: h.y2, label }), j)
            }
        },
    }
}

/// `t` without its trailing `}` characters.
pub open spec fn strip_close_braces(t: Seq<char>) -> Seq<char>
    decreases t.len(),
{
    if t.len() > 0 && t.last() == '}' {
        strip_close_braces(t.drop_last())
    } else {
        t
    }
}

/// A net label line: `L`, then attributes after its first `{`; the `lab` value.
pub open spec fn net_label_line(t: Seq<char>) -> Option<Seq<char>> {
    let u = ltrim(t);
    if u.len() == 0 || u[0] != 'L' {
        None
    } else {
        let p = close_brace_open_at(u, 0);
        if p >= u.len() {
            None
        } else {
            lookup(
                attr_map(strip_close_braces(u.subrange(p + 1, u.len() as int))),
                seq!['l', 'a', 'b'],
            )
        }
    }
}

/// Index of the first `{` at or after `i` (or `t.len()`).
pub open spec fn close_brace_open_at(t: Seq<char>, i: int) -> int
    decreases t.len() - i,
{
    if 0 <= i < t.len() && t[i] != '{' {
        close_brace_open_at(t, i + 1)
    } else {
        i
    }
}

pub proof fn lemma_open_brace_at(t: Seq<char>, i: int)
    requires
        0 <= i <= t.len(),
    ensures
        i <= close_brace_open_at(t, i) <= t.len(),
    decreases t.len() - i,
{
    if i < t.len() && t[i] != '{' {
        lemma_open_brace_at(t, i + 1);
    }
}

// ───────────────────────── whole file ─────────────────────────

/// Adds a net name to the set of nets.
pub open spec fn add_net(nets: Seq<(Seq<char>, ())>, n: Seq<char>) -> Seq<(Seq<char>, ())> {
    seq_insert(nets, n, ())
}

/// The schematic after reading lines `i..` into `s`.
pub open spec fn parse_from(lines: Seq<Seq<char>>, i: int, s: SchematicView) -> SchematicView
    decreases lines.len() - i,
{
    if i < 0 || i >= lines.len() {
        s
    } else {
        let t = ltrim(lines[i]);
        if t.len() == 0 {
            parse_from(lines, i + 1, s)
        } else {
            proof {
                lemma_component_line_next(t, lines, i + 1);
            }
            let (comp, j) = component_line(t, lines, i + 1);
            match comp {
                Some(c) => {
                    let nets = match lookup(c.params, seq!['l', 'a', 'b']) {
                        Some(lab) => add_net(s.nets, lab),
                        None => s.nets,
                    };
                    parse_from(
                        lines,
                        j,
                        SchematicView {
                            components: seq_insert(s.components, c.name, c),
                            wires: s.wires,
                            nets,
                        },
                    )
                },
                None => {
                    proof {
                        lemma_wire_line_next(t, lines, j);
                    }
                    let (wire, k) = wire_line(t, lines, j);
                    match wire {
                        Some(w) => {
                            let nets = if w.label.len() > 0 {
                                add_net(s.nets, w.label)
                            } else {
                                s.nets
                            };
                            parse_from(
                                lines,
                                k,
                                SchematicView {
                                    components: s.components,
                                    wires: s.wires.push(w),
                                    nets,
                                },
                            )
                        },
                        None => match net_label_line(t) {
                            Some(lab) => parse_from(
                                lines,
                                k,
                                SchematicView {
                                    components: s.components,
                                    wires: s.wires,
                                    nets: add_net(s.nets, lab),
                                },
                            ),
                            None => parse_from(lines, k, s),
                        },
                    }
                },
            }
        }
    }
}

/// The empty schematic.
pub open spec fn empty_schematic() -> SchematicView {
    SchematicView { components: Seq::empty(), wires: Seq::empty(), nets: Seq::empty() }
}

/// The schematic described by the text `t`.
pub open spec fn schematic_of_text(t: Seq<char>) -> SchematicView {
    parse_from(lines_of(t), 0, empty_schematic())
}

pub proof fn lemma_collect_more(body: Seq<char>, lines: Seq<Seq<char>>, j: int)
    requires
        0 <= j <= lines.len(),
    ensures
        j <= collect_more(body, lines, j).1 <= lines.len(),
    decreases lines.len() - j,
{
    if j < lines.len() {
        let t = trim(lines[j]);
        if !is_block_end(t) && !(t.len() > 0 && t.last() == '}') {
            lemma_collect_more(join_line(body, t), lines, j + 1);
        }
    }
}

pub proof fn lemma_component_line_next(t: Seq<char>, lines: Seq<Seq<char>>, next: int)
    requires
        0 <= next <= lines.len(),
    ensures
        next <= component_line(t, lines, next).1 <= lines.len(),
{
    if let Some(h) = component_header(t) {
        lemma_collect_more(trim(h.body), lines, next);
    }
}

pub proof fn lemma_wire_line_next(t: Seq<char>, lines: Seq<Seq<char>>, next: int)
    requires
        0 <= next <= lines.len(),
    ensures
        next <= wire_line(t, lines, next).1 <= lines.len(),
{
    if let Some(h) = wire_header(t) {
        lemma_collect_more(trim(h.body), lines, next);
    }
}


// ───────────────────────── exec: fields and literals ─────────────────────────

fn skip_ws_exec(t: &[char], i: usize) -> (j: usize)
    requires
        i <= t@.len(),
    ensures
        j == skip_ws_idx(t@, i as int),
        i <= j <= t@.len(),
{
    proof {
        lemma_skip_ws_idx(t@, i as int);
    }
    let mut j = i;
    while j < t.len() && is_whitespace(t[j])
        invariant
            i <= j <= t@.len(),
            skip_ws_idx(t@, i as int) == skip_ws_idx(t@, j as int),
        decreases t@.len() - j,
    {
        j = j + 1;
    }
    j
}

fn is_coord_char_exec(c: char) -> (b: bool)
    ensures
        b == is_coord_char(c),
{
    c == '-' || c == '+' || ('0' <= c && c <= '9') || c == '.' || c == 'e' || c == 'E'
}

fn coord_end_exec(t: &[char], i: usize) -> (j: usize)
    requires
        i <= t@.len(),
    ensures
        j == coord_end(t@, i as int),
{
    let mut j = i;
    while j < t.len() && is_coord_char_exec(t[j])
        invariant
            i <= j <= t@.len(),
            coord_end(t@, i as int) == coord_end(t@, j as int),
        decreases t@.len() - j,
    {
        j = j + 1;
    }
    j
}

fn digits_end_exec(t: &[char], i: usize) -> (j: usize)
    requires
        i <= t@.len(),
    ensures
        j == digits_end(t@, i as int),
{
    let mut j = i;
    while j < t.len() && '0' <= t[j] && t[j] <= '9'
        invariant
            i <= j <= t@.len(),
            digits_end(t@, i as int) == digits_end(t@, j as int),
        decreases t@.len() - j,
    {
        j = j + 1;
    }
    j
}

fn ws_field_exec(t: &[char], i: usize, int_field: bool) -> (r: Option<(usize, usize)>)
    requires
        i <= t@.len(),
    ensures
        match r {
            None => ws_field(t@, i as int, int_field) is None,
            Some((a, b)) => ws_field(t@, i as int, int_field) == Some((a as int, b as int)) && b
                <= t@.len(),
        },
{
    proof {
        lemma_ws_field(t@, i as int, int_field);
    }
    let a = skip_ws_exec(t, i);
    if a == i {
        return None;
    }
    let b = if int_field {
        let s = if a < t.len() && t[a] == '-' {
            a + 1
        } else {
            a
        };
        let e = digits_end_exec(t, s);
        if e == s {
            a
        } else {
            e
        }
    } else {
        coord_end_exec(t, a)
    };
    if b == a {
        None
    } else {
        Some((a, b))
    }
}

fn ws_open_brace_exec(t: &[char], i: usize) -> (r: Option<usize>)
    requires
        i <= t@.len(),
    ensures
        match r {
            None => ws_open_brace(t@, i as int) is None,
            Some(c) => ws_open_brace(t@, i as int) == Some(c as int) && c <= t@.len(),
        },
{
    let c = skip_ws_exec(t, i);
    if c == i || c >= t.len() || t[c] != '{' {
        None
    } else {
        Some(c + 1)
    }
}

fn close_brace_exec(t: &[char], i: usize) -> (j: usize)
    requires
        i <= t@.len(),
    ensures
        j == close_brace_at(t@, i as int),
        i <= j <= t@.len(),
{
    let mut j = i;
    while j < t.len() && t[j] != '}'
        invariant
            i <= j <= t@.len(),
            close_brace_at(t@, i as int) == close_brace_at(t@, j as int),
        decreases t@.len() - j,
    {
        j = j + 1;
    }
    j
}

fn float_literal_exec(s: &[char]) -> (b: bool)
    ensures
        b == is_float_literal(s@),
{
    let a: usize = if s.len() > 0 && (s[0] == '+' || s[0] == '-') {
        1
    } else {
        0
    };
    let b = digits_end_exec(s, a);
    proof {
        lemma_digits_end(s@, a as int);
    }
    let has_point = b < s.len() && s[b] == '.';
    let c = if has_point {
        proof {
            lemma_digits_end(s@, b + 1);
        }
        digits_end_exec(s, b + 1)
    } else {
        b
    };
    let n_digits = if has_point {
        (b - a) + (c - b - 1)
    } else {
        b - a
    };
    if n_digits == 0 {
        return false;
    }
    if c == s.len() {
        return true;
    }
    if !(s[c] == 'e' || s[c] == 'E') {
        return false;
    }
    let d = if c + 1 < s.len() && (s[c + 1] == '+' || s[c + 1] == '-') {
        c + 2
    } else {
        c + 1
    };
    let e = digits_end_exec(s, d);
    e > d && e == s.len()
}

pub proof fn lemma_digits_value_monotone(s: Seq<char>, a: int, k: int, m: int)
    requires
        0 <= a <= k <= m <= s.len(),
    ensures
        digits_value(s.subrange(a, k)) <= digits_value(s.subrange(a, m)),
    decreases m - k,
{
    if k < m {
        lemma_digits_value_monotone(s, a, k, m - 1);
        assert(s.subrange(a, m).drop_last() =~= s.subrange(a, m - 1));
    }
}

fn i32_literal_exec(s: &[char]) -> (r: Option<i32>)
    ensures
        r == i32_literal(s@),
{
    let neg = s.len() > 0 && s[0] == '-';
    let a: usize = if neg {
        1
    } else {
        0
    };
    if a >= s.len() {
        return None;
    }
    let e = digits_end_exec(s, a);
    if e != s.len() {
        return None;
    }
    proof {
        lemma_digits_end(s@, a as int);
    }
    let mut v: u64 = 0;
    let mut k = a;
    assert(s@.subrange(a as int, a as int) =~= Seq::<char>::empty());
    while k < s.len()
        invariant
            a <= k <= s@.len(),
            forall|j: int| a <= j < s@.len() ==> is_digit(#[trigger] s@[j]),
            digits_end(s@, a as int) == s@.len(),
            a < s@.len(),
            neg == (s@.len() > 0 && s@[0] == '-'),
            a == (if neg { 1usize } else { 0usize }),
            v == digits_value(s@.subrange(a as int, k as int)),
            v <= 2147483648,
        decreases s@.len() - k,
    {
        let d = ((s[k] as u32) - ('0' as u32)) as u64;
        let nv = v * 10 + d;
        proof {
            assert(s@.subrange(a as int, k + 1).drop_last() =~= s@.subrange(a as int, k as int));
            assert(s@.subrange(a as int, k + 1).last() == s@[k as int]);
            assert(is_digit(s@[k as int]));
            assert(d as int == (s@[k as int] as int) - ('0' as int));
            assert(nv == digits_value(s@.subrange(a as int, k + 1)));
        }
        if nv > 2147483648 {
            proof {
                lemma_digits_value_monotone(s@, a as int, k + 1, s@.len() as int);
                assert(digits_value(s@.subrange(a as int, s@.len() as int)) > 2147483648);
            }
            return None;
        }
        v = nv;
        k = k + 1;
    }
    let w: i64 = if neg {
        -(v as i64)
    } else {
        v as i64
    };
    if w < -2147483648 || w > 2147483647 {
        None
    } else {
        Some(w as i32)
    }
}

// ───────────────────────── exec: headers ─────────────────────────

struct ComponentSpans {
    symbol: (usize, usize),
    x: (usize, usize),
    y: (usize, usize),
    rotation: (usize, usize),
    mirror: (usize, usize),
    body: usize,
}

spec fn spans_match(t: Seq<char>, sp: ComponentSpans, h: ComponentHeader) -> bool {
    &&& sp.symbol.0 <= sp.symbol.1 <= t.len()
    &&& sp.x.0 <= sp.x.1 <= t.len()
    &&& sp.y.0 <= sp.y.1 <= t.len()
    &&& sp.rotation.0 <= sp.rotation.1 <= t.len()
    &&& sp.mirror.0 <= sp.mirror.1 <= t.len()
    &&& sp.body <= t.len()
    &&& h.symbol == t.subrange(sp.symbol.0 as int, sp.symbol.1 as int)
    &&& h.x == t.subrange(sp.x.0 as int, sp.x.1 as int)
    &&& h.y == t.subrange(sp.y.0 as int, sp.y.1 as int)
    &&& h.rotation == t.subrange(sp.rotation.0 as int, sp.rotation.1 as int)
    &&& h.mirror == t.subrange(sp.mirror.0 as int, sp.mirror.1 as int)
    &&& h.body == t.subrange(sp.body as int, t.len() as int)
}

fn component_header_exec(t: &[char]) -> (r: Option<ComponentSpans>)
    ensures
        match r {
            None => component_header(t@) is None,
            Some(sp) => component_header(t@) matches Some(h) && spans_match(t@, sp, h),
        },
{
    if t.len() == 0 || t[0] != 'C' {
        return None;
    }
    let a = skip_ws_exec(t, 1);
    if a == 1 || a >= t.len() || t[a] != '{' {
        return None;
    }
    let b = close_brace_exec(t, a + 1);
    if b >= t.len() {
        return None;
    }
    let (xs, xe) = match ws_field_exec(t, b + 1, false) {
        None => return None,
        Some(p) => p,
    };
    let (ys, ye) = match ws_field_exec(t, xe, false) {
        None => return None,
        Some(p) => p,
    };
    let (rs, re) = match ws_field_exec(t, ye, true) {
        None => return None,
        Some(p) => p,
    };
    let (ms, me) = match ws_field_exec(t, re, true) {
        None => return None,
        Some(p) => p,
    };
    let c = match ws_open_brace_exec(t, me) {
        None => return None,
        Some(c) => c,
    };
    proof {
        lemma_ws_field(t@, b + 1, false);
        lemma_ws_field(t@, xe as int, false);
        lemma_ws_field(t@, ye as int, true);
        lemma_ws_field(t@, re as int, true);
    }
    Some(
        ComponentSpans {
            symbol: (a + 1, b),
            x: (xs, xe),
            y: (ys, ye),
            rotation: (rs, re),
            mirror: (ms, me),
            body: c,
        },
    )
}

struct WireSpans {
    x1: (usize, usize),
    y1: (usize, usize),
    x2: (usize, usize),
    y2: (usize, usize),
    body: usize,
}

spec fn wire_spans_match(t: Seq<char>, sp: WireSpans, h: WireHeader) -> bool {
    &&& sp.x1.0 <= sp.x1.1 <= t.len()
    &&& sp.y1.0 <= sp.y1.1 <= t.len()
    &&& sp.x2.0 <= sp.x2.1 <= t.len()
    &&& sp.y2.0 <= sp.y2.1 <= t.len()
    &&& sp.body <= t.len()
    &&& h.x1 == t.subrange(sp.x1.0 as int, sp.x1.1 as int)
    &&& h.y1 == t.subrange(sp.y1.0 as int, sp.y1.1 as int)
    &&& h.x2 == t.subrange(sp.x2.0 as int, sp.x2.1 as int)
    &&& h.y2 == t.subrange(sp.y2.0 as int, sp.y2.1 as int)
    &&& h.body == t.subrange(sp.body as int, t.len() as int)
}

fn wire_header_exec(t: &[char]) -> (r: Option<WireSpans>)
    ensures
        match r {
            None => wire_header(t@) is None,
            Some(sp) => wire_header(t@) matches Some(h) && wire_spans_match(t@, sp, h),
        },
{
    if t.len() == 0 || t[0] != 'N' {
        return None;
    }
    let (a1, b1) = match ws_field_exec(t, 1, false) {
        None => return None,
        Some(p) => p,
    };
    let (a2, b2) = match ws_field_exec(t, b1, false) {
        None => return None,
        Some(p) => p,
    };
    let (a3, b3) = match ws_field_exec(t, b2, false) {
        None => return None,
        Some(p) => p,
    };
    let (a4, b4) = match ws_field_exec(t, b3, false) {
        None => return None,
        Some(p) => p,
    };
    let c = match ws_open_brace_exec(t, b4) {
        None => return None,
        Some(c) => c,
    };
    proof {
        lemma_ws_field(t@, 1, false);
        lemma_ws_field(t@, b1 as int, false);
        lemma_ws_field(t@, b2 as int, false);
        lemma_ws_field(t@, b3 as int, false);
    }
    Some(WireSpans { x1: (a1, b1), y1: (a2, b2), x2: (a3, b3), y2: (a4, b4), body: c })
}

// ───────────────────────── exec: blocks and lines ─────────────────────────

pub open spec fn lines_view(lines: Seq<Vec<char>>) -> Seq<Seq<char>> {
    lines.map_values(|l: Vec<char>| l@)
}

fn trimmed_copy(s: &[char]) -> (out: Vec<char>)
    ensures
        out@ == trim(s@),
{
    let (b, e) = trim_bounds(s, 0, s.len());
    assert(s@.subrange(0, s@.len() as int) =~= s@);
    slice_to_vec(s, b, e)
}

fn is_block_end_exec(t: &[char]) -> (b: bool)
    ensures
        b == is_block_end(t@),
{
    if t.len() == 1 && t[0] == '}' {
        assert(t@ =~= seq!['}']);
        true
    } else if t.len() == 2 && t[0] == '"' && t[1] == '}' {
        assert(t@ =~= seq!['"', '}']);
        true
    } else {
        proof {
            if t@ == seq!['}'] {
                assert(t@[0] == '}');
            }
            if t@ == seq!['"', '}'] {
                assert(t@[0] == '"' && t@[1] == '}');
            }
        }
        false
    }
}

fn block_body_exec(first: &[char], lines: &Vec<Vec<char>>, next: usize) -> (r: (Vec<char>, usize))
    requires
        next <= lines@.len(),
    ensures
        (r.0@, r.1 as int) == block_body(first@, lines_view(lines@), next as int),
        next <= r.1 <= lines@.len(),
{
    let ghost lv = lines_view(lines@);
    let b = trimmed_copy(first);
    if b.len() > 0 && b[b.len() - 1] == '}' {
        let e = trim_end_from(b.as_slice(), 0, b.len() - 1);
        assert(b@.drop_last() =~= b@.subrange(0, b@.len() - 1));
        return (slice_to_vec(b.as_slice(), 0, e), next);
    }
    let mut body = b;
    let mut j = next;
    proof {
        lemma_collect_more(body@, lv, j as int);
    }
    while j < lines.len()
        invariant
            next <= j <= lines@.len(),
            lv == lines_view(lines@),
            block_body(first@, lv, next as int) == collect_more(body@, lv, j as int),
        decreases lines@.len() - j,
    {
        let t = trimmed_copy(lines[j].as_slice());
        assert(lv[j as int] == lines@[j as int]@);
        if is_block_end_exec(t.as_slice()) {
            return (body, j + 1);
        }
        let closes = t.len() > 0 && t[t.len() - 1] == '}';
        let piece = if closes {
            let e = trim_end_from(t.as_slice(), 0, t.len() - 1);
            assert(t@.drop_last() =~= t@.subrange(0, t@.len() - 1));
            slice_to_vec(t.as_slice(), 0, e)
        } else {
            t
        };
        let ghost old_body = body@;
        if body.len() == 0 {
            body = piece;
        } else {
            body.push('\n');
            crate::text::push_chars(&mut body, piece.as_slice());
            assert(body@ =~= old_body + seq!['\n'] + piece@);
        }
        if closes {
            return (body, j + 1);
        }
        j = j + 1;
    }
    (body, j)
}

/// Reads a component line (whose leading whitespace is gone) and, when its
/// attribute block continues, the lines after it.
fn component_line_exec(t: &[char], lines: &Vec<Vec<char>>, next: usize) -> (r: (
    Option<Component>,
    usize,
))
    requires
        next <= lines@.len(),
    ensures
        r.1 <= lines@.len(),
        component_line(t@, lines_view(lines@), next as int) == (
            match r.0 {
                Some(c) => Some(c@),
                None => None,
            },
            r.1 as int,
        ),
        r.0 matches Some(c) ==> c.params.wf(),
{
    let sp = match component_header_exec(t) {
        None => return (None, next),
        Some(sp) => sp,
    };
    let ghost h = component_header(t@)->0;
    let xs = slice_to_vec(t, sp.x.0, sp.x.1);
    let ys = slice_to_vec(t, sp.y.0, sp.y.1);
    let rs = slice_to_vec(t, sp.rotation.0, sp.rotation.1);
    let ms = slice_to_vec(t, sp.mirror.0, sp.mirror.1);
    if !float_literal_exec(xs.as_slice()) || !float_literal_exec(ys.as_slice()) {
        return (None, next);
    }
    let rotation = match i32_literal_exec(rs.as_slice()) {
        None => return (None, next),
        Some(v) => v,
    };
    let mirror = match i32_literal_exec(ms.as_slice()) {
        None => return (None, next),
        Some(v) => v,
    };
    let first = slice_to_vec(t, sp.body, t.len());
    let (body, j) = block_body_exec(first.as_slice(), lines, next);
    let mut attrs = parse_attrs(body.as_slice());
    proof {
        reveal_strlit("name");
        assert("name"@ =~= seq!['n', 'a', 'm', 'e']);
        assert(first@ == h.body);
        assert(xs@ == h.x && ys@ == h.y && rs@ == h.rotation && ms@ == h.mirror);
    }
    let name = match attrs.remove("name") {
        None => return (None, j),
        Some(n) => n,
    };
    proof {
        crate::textmap::lemma_remove_key_sorted(attr_map(body@), seq!['n', 'a', 'm', 'e']);
    }
    let sym = slice_to_vec(t, sp.symbol.0, sp.symbol.1);
    let symbol_chars = trimmed_copy(sym.as_slice());
    let c = Component {
        name,
        symbol: string_from_chars(symbol_chars.as_slice()),
        params: attrs,
        x: string_from_chars(xs.as_slice()),
        y: string_from_chars(ys.as_slice()),
        rotation,
        mirror,
    };
    (Some(c), j)
}

/// Reads a wire line and, when its attribute block continues, the lines after it.
fn wire_line_exec(t: &[char], lines: &Vec<Vec<char>>, next: usize) -> (r: (Option<Wire>, usize))
    requires
        next <= lines@.len(),
    ensures
        r.1 <= lines@.len(),
        wire_line(t@, lines_view(lines@), next as int) == (
            match r.0 {
                Some(w) => Some(w@),
                None => None,
            },
            r.1 as int,
        ),
{
    let sp = match wire_header_exec(t) {
        None => return (None, next),
        Some(sp) => sp,
    };
    let x1 = slice_to_vec(t, sp.x1.0, sp.x1.1);
    let y1 = slice_to_vec(t, sp.y1.0, sp.y1.1);
    let x2 = slice_to_vec(t, sp.x2.0, sp.x2.1);
    let y2 = slice_to_vec(t, sp.y2.0, sp.y2.1);
    if !float_literal_exec(x1.as_slice()) || !float_literal_exec(y1.as_slice())
        || !float_literal_exec(x2.as_slice()) || !float_literal_exec(y2.as_slice()) {
        return (None, next);
    }
    let first = slice_to_vec(t, sp.body, t.len());
    let (body, j) = block_body_exec(first.as_slice(), lines, next);
    let attrs = parse_attrs(body.as_slice());
    proof {
        reveal_strlit("lab");
        assert("lab"@ =~= seq!['l', 'a', 'b']);
        assert(first@ == wire_header(t@)->0.body);
    }
    let label = match attrs.get("lab") {
        Some(l) => l.clone(),
        None => String::new(),
    };
    let w = Wire {
        x1: string_from_chars(x1.as_slice()),
        y1: string_from_chars(y1.as_slice()),
        x2: string_from_chars(x2.as_slice()),
        y2: string_from_chars(y2.as_slice()),
        label,
    };
    (Some(w), j)
}

/// The `lab` value of a net label line.
fn net_label_line_exec(t: &[char]) -> (r: Option<String>)
    ensures
        match r {
            Some(l) => net_label_line(t@) == Some(l@),
            None => net_label_line(t@) is None,
        },
{
    let b = crate::text::skip_ws_from(t, 0, t.len());
    assert(t@.subrange(0, t@.len() as int) =~= t@);
    let u = slice_to_vec(t, b, t.len());
    if u.len() == 0 || u[0] != 'L' {
        return None;
    }
    let mut p: usize = 0;
    while p < u.len() && u[p] != '{'
        invariant
            p <= u@.len(),
            close_brace_open_at(u@, 0) == close_brace_open_at(u@, p as int),
        decreases u@.len() - p,
    {
        p = p + 1;
    }
    if p >= u.len() {
        return None;
    }
    let mut e = u.len();
    let ghost tail = u@.subrange(p + 1, u@.len() as int);
    while e > p + 1 && u[e - 1] == '}'
        invariant
            p + 1 <= e <= u@.len(),
            tail == u@.subrange(p + 1, u@.len() as int),
            strip_close_braces(tail) == strip_close_braces(u@.subrange(p + 1, e as int)),
        decreases e,
    {
        assert(u@.subrange(p + 1, e as int).drop_last() =~= u@.subrange(p + 1, e - 1));
        e = e - 1;
    }
    let raw = slice_to_vec(u.as_slice(), p + 1, e);
    assert(strip_close_braces(raw@) == raw@);
    let attrs = parse_attrs(raw.as_slice());
    proof {
        reveal_strlit("lab");
        assert("lab"@ =~= seq!['l', 'a', 'b']);
        assert(u@ == ltrim(t@));
        assert(raw@ == u@.subrange(p + 1, e as int));
    }
    match attrs.get("lab") {
        Some(l) => Some(l.clone()),
        None => None,
    }
}

/// Reads line `i` (and the block lines it owns) into `sch`; the next line.
fn read_line(sch: &mut Schematic, lines: &Vec<Vec<char>>, i: usize) -> (next: usize)
    requires
        i < lines@.len(),
        old(sch).wf(),
    ensures
        final(sch).wf(),
        i < next <= lines@.len(),
        parse_from(lines_view(lines@), i as int, old(sch)@) == parse_from(
            lines_view(lines@),
            next as int,
            final(sch)@,
        ),
{
    let ghost lv = lines_view(lines@);
    let ghost s0 = sch@;
    proof {
        reveal_strlit("lab");
        assert("lab"@ =~= seq!['l', 'a', 'b']);
    }
    let n = lines.len();
    let line = &lines[i];
    assert(lv[i as int] == line@);
    let b = crate::text::skip_ws_from(line.as_slice(), 0, line.len());
    assert(line@.subrange(0, line@.len() as int) =~= line@);
    let t = slice_to_vec(line.as_slice(), b, line.len());
    if t.len() == 0 {
        return i + 1;
    }
    proof {
        lemma_component_line_next(t@, lv, i + 1);
    }
    let (comp, j) = component_line_exec(t.as_slice(), lines, i + 1);
    match comp {
        Some(c) => {
            match c.params.get("lab") {
                Some(lab) => {
                    sch.nets.insert(lab.clone(), ());
                },
                None => {},
            }
            let name = c.name.clone();
            sch.components.insert(name, c);
            assert(sch@.wires =~= s0.wires);
            return j;
        },
        None => {},
    }
    proof {
        lemma_wire_line_next(t@, lv, j as int);
    }
    let (wire, k) = wire_line_exec(t.as_slice(), lines, j);
    match wire {
        Some(w) => {
            if !w.label.as_str().is_empty() {
                sch.nets.insert(w.label.clone(), ());
            }
            let ghost wv = w@;
            sch.wires.push(w);
            assert(sch@.wires =~= s0.wires.push(wv));
            return k;
        },
        None => {},
    }
    match net_label_line_exec(t.as_slice()) {
        Some(lab) => {
            sch.nets.insert(lab, ());
            assert(sch@.wires =~= s0.wires);
        },
        None => {},
    }
    k
}

/// Reads the schematic from already split lines.
pub fn parse_lines(lines: &Vec<Vec<char>>) -> (s: Schematic)
    ensures
        s.wf(),
        s@ == parse_from(lines_view(lines@), 0, empty_schematic()),
{
    let mut sch = Schematic::empty();
    let mut i: usize = 0;
    assert(sch@.components =~= empty_schematic().components);
    assert(sch@.wires =~= empty_schematic().wires);
    assert(sch@.nets =~= empty_schematic().nets);
    while i < lines.len()
        invariant
            i <= lines@.len(),
            sch.wf(),
            parse_from(lines_view(lines@), 0, empty_schematic()) == parse_from(
                lines_view(lines@),
                i as int,
                sch@,
            ),
        decreases lines@.len() - i,
    {
        i = read_line(&mut sch, lines, i);
    }
    sch
}


// ───────────────────────── entry points ─────────────────────────

/// The schematic described by the bytes of a `.sch` file.
pub open spec fn schematic_of(content: Seq<u8>) -> SchematicView {
    schematic_of_text(lossy_text(content))
}

/// Reads a schematic from the bytes of a `.sch` file (invalid UTF-8 is
/// replaced, never rejected).
pub fn parse(content: &[u8]) -> (s: Schematic)
    ensures
        s.wf(),
        s@ == schematic_of(content@),
        content@.len() == 0 ==> s@ == empty_schematic(),
        forall|i: int|
            0 <= i < s@.components.len() ==> (#[trigger] s@.components[i]).0 == s@.components[i].1.name
                && !has_key(s@.components[i].1.params, seq!['n', 'a', 'm', 'e']) && (lookup(
                s@.components[i].1.params,
                seq!['l', 'a', 'b'],
            ) matches Some(l) ==> has_key(s@.nets, l)),
        forall|i: int|
            0 <= i < s@.wires.len() && (#[trigger] s@.wires[i]).label.len() > 0 ==> has_key(
                s@.nets,
                s@.wires[i].label,
            ),
        forall|n: Seq<char>|
            #[trigger] has_key(s@.nets, n) ==> exists|i: int|
                0 <= i < lines_of(lossy_text(content@)).len() && #[trigger] element_lab(
                    lines_of(lossy_text(content@)),
                    i,
                ) == Some(n),
{
    proof {
        lemma_parsed_schematic_consistent(content@);
        lemma_parsed_nets_come_from_labels(content@);
    }
    let text = decode_lossy(content);
    proof {
        if content@.len() == 0 {
            assert(vstd::utf8::valid_utf8(content@));
            assert(text@ =~= Seq::<char>::empty());
            assert(lines_of(text@) =~= Seq::<Seq<char>>::empty());
        }
    }
    let chars = chars_of(text.as_str());
    let lines = split_lines(chars.as_slice());
    assert(lines_view(lines@) == lines_of(chars@));
    parse_lines(&lines)
}

/// Header texts that identify each format.
pub open spec fn format_of_header(h: Seq<char>) -> FileFormat {
    if contains_seq(h, "xschem version="@) {
        FileFormat::Xschem
    } else if contains_seq(h, "<Qucs Schematic"@) {
        FileFormat::Qucs
    } else if contains_seq(h, "EESchema Schematic File Version"@) {
        FileFormat::KicadLegacy
    } else {
        FileFormat::Unknown
    }
}

/// The format of a file, judged from its first 240 bytes.
pub open spec fn format_of(content: Seq<u8>) -> FileFormat {
    let n = if content.len() < 240 {
        content.len() as int
    } else {
        240
    };
    format_of_header(lossy_text(content.take(n)))
}

/// Recognises the format of a schematic from the text near its start.
pub fn detect_format(content: &[u8]) -> (f: FileFormat)
    ensures
        f == format_of(content@),
{
    let n: usize = if content.len() < 240 {
        content.len()
    } else {
        240
    };
    let head = vstd::slice::slice_subrange(content, 0, n);
    assert(head@ =~= content@.take(n as int));
    let text = decode_lossy(head);
    if str_contains(text.as_str(), "xschem version=") {
        FileFormat::Xschem
    } else if str_contains(text.as_str(), "<Qucs Schematic") {
        FileFormat::Qucs
    } else if str_contains(text.as_str(), "EESchema Schematic File Version") {
        FileFormat::KicadLegacy
    } else {
        FileFormat::Unknown
    }
}

/// A reader of schematic files.
pub trait SchematicParser {
    /// The format the content is in.
    fn detect_format(&self, content: &[u8]) -> FileFormat;

    /// The schematic the content describes.
    fn parse(&self, content: &[u8]) -> Schematic;
}

/// The reader for Xschem files.
pub struct XschemParser;

impl SchematicParser for XschemParser {
    fn detect_format(&self, content: &[u8]) -> (f: FileFormat)
        ensures
            f == format_of(content@),
    {
        detect_format(content)
    }

    fn parse(&self, content: &[u8]) -> (s: Schematic)
        ensures
            s.wf(),
            s@ == schematic_of(content@),
    {
        parse(content)
    }
}


/// Reading lines keeps components and nets sorted by name.
pub proof fn lemma_parse_from_sorted(lines: Seq<Seq<char>>, i: int, s: SchematicView)
    requires
        crate::textmap::keys_sorted(s.components),
        crate::textmap::keys_sorted(s.nets),
    ensures
        crate::textmap::keys_sorted(parse_from(lines, i, s).components),
        crate::textmap::keys_sorted(parse_from(lines, i, s).nets),
    decreases lines.len() - i,
{
    if 0 <= i < lines.len() {
        let t = ltrim(lines[i]);
        if t.len() == 0 {
            lemma_parse_from_sorted(lines, i + 1, s);
        } else {
            lemma_component_line_next(t, lines, i + 1);
            let (comp, j) = component_line(t, lines, i + 1);
            match comp {
                Some(c) => {
                    crate::textmap::lemma_seq_insert_sorted(s.components, c.name, c);
                    let nets = match lookup(c.params, seq!['l', 'a', 'b']) {
                        Some(lab) => {
                            crate::textmap::lemma_seq_insert_sorted(s.nets, lab, ());
                            add_net(s.nets, lab)
                        },
                        None => s.nets,
                    };
                    lemma_parse_from_sorted(
                        lines,
                        j,
                        SchematicView {
                            components: seq_insert(s.components, c.name, c),
                            wires: s.wires,
                            nets,
                        },
                    );
                },
                None => {
                    lemma_wire_line_next(t, lines, j);
                    let (wire, k) = wire_line(t, lines, j);
                    match wire {
                        Some(w) => {
                            crate::textmap::lemma_seq_insert_sorted(s.nets, w.label, ());
                            let nets = if w.label.len() > 0 {
                                add_net(s.nets, w.label)
                            } else {
                                s.nets
                            };
                            lemma_parse_from_sorted(
                                lines,
                                k,
                                SchematicView {
                                    components: s.components,
                                    wires: s.wires.push(w),
                                    nets,
                                },
                            );
                        },
                        None => match net_label_line(t) {
                            Some(lab) => {
                                crate::textmap::lemma_seq_insert_sorted(s.nets, lab, ());
                                lemma_parse_from_sorted(
                                    lines,
                                    k,
                                    SchematicView {
                                        components: s.components,
                                        wires: s.wires,
                                        nets: add_net(s.nets, lab),
                                    },
                                );
                            },
                            None => lemma_parse_from_sorted(lines, k, s),
                        },
                    }
                },
            }
        }
    }
}

/// What reading keeps of a schematic: every component is filed under its own
/// name and has no `name` attribute; the `lab` of every component and the
/// label of every labelled wire name a net.
pub open spec fn consistent(s: SchematicView) -> bool {
    &&& forall|k: Seq<char>|
        #![trigger lookup(s.components, k)]
        lookup(s.components, k) matches Some(c) ==> c.name == k && !has_key(c.params, seq!['n', 'a', 'm', 'e'])
            && (lookup(c.params, seq!['l', 'a', 'b']) matches Some(l) ==> lookup(s.nets, l) is Some)
    &&& forall|i: int|
        0 <= i < s.wires.len() && (#[trigger] s.wires[i]).label.len() > 0 ==> lookup(
            s.nets,
            s.wires[i].label,
        ) is Some
}

proof fn lemma_component_line_params(t: Seq<char>, lines: Seq<Seq<char>>, next: int)
    ensures
        component_line(t, lines, next).0 matches Some(c) ==> !has_key(c.params, seq!['n', 'a', 'm', 'e'])
            && keys_sorted(c.params),
{
    if let Some(h) = component_header(t) {
        let (body, j) = block_body(h.body, lines, next);
        lemma_insert_all_sorted(Seq::<(Seq<char>, Seq<char>)>::empty(), crate::attrs::attr_pairs(body, 0));
        lemma_remove_key_sorted(attr_map(body), seq!['n', 'a', 'm', 'e']);
    }
}

/// A net once added stays.
proof fn lemma_add_net_keeps(nets: Seq<(Seq<char>, ())>, n: Seq<char>, l: Seq<char>)
    requires
        keys_sorted(nets),
    ensures
        lookup(add_net(nets, l), l) is Some,
        lookup(nets, n) is Some ==> lookup(add_net(nets, l), n) is Some,
{
    lemma_seq_insert_lookup(nets, l, (), l);
    lemma_seq_insert_lookup(nets, l, (), n);
}

proof fn lemma_parse_from_consistent(lines: Seq<Seq<char>>, i: int, s: SchematicView)
    requires
        keys_sorted(s.components),
        keys_sorted(s.nets),
        consistent(s),
    ensures
        consistent(parse_from(lines, i, s)),
    decreases lines.len() - i,
{
    if 0 <= i < lines.len() {
        let t = ltrim(lines[i]);
        if t.len() == 0 {
            lemma_parse_from_consistent(lines, i + 1, s);
        } else {
            lemma_component_line_next(t, lines, i + 1);
            let (comp, j) = component_line(t, lines, i + 1);
            match comp {
                Some(c) => {
                    lemma_component_line_params(t, lines, i + 1);
                    lemma_seq_insert_sorted(s.components, c.name, c);
                    let nets = match lookup(c.params, seq!['l', 'a', 'b']) {
                        Some(lab) => {
                            lemma_seq_insert_sorted(s.nets, lab, ());
                            add_net(s.nets, lab)
                        },
                        None => s.nets,
                    };
                    let s2 = SchematicView { components: seq_insert(s.components, c.name, c), wires: s.wires, nets };
                    assert forall|k: Seq<char>| #[trigger] lookup(s2.nets, k) is Some || !(lookup(s.nets, k) is Some) by {
                        if let Some(lab) = lookup(c.params, seq!['l', 'a', 'b']) {
                            lemma_add_net_keeps(s.nets, k, lab);
                        }
                    }
                    assert forall|k: Seq<char>|
                        #![trigger lookup(s2.components, k)]
                        lookup(s2.components, k) matches Some(c2) ==> c2.name == k && !has_key(
                            c2.params,
                            seq!['n', 'a', 'm', 'e'],
                        ) && (lookup(c2.params, seq!['l', 'a', 'b']) matches Some(l) ==> lookup(s2.nets, l) is Some) by {
                        lemma_seq_insert_lookup(s.components, c.name, c, k);
                        if k == c.name {
                            if let Some(lab) = lookup(c.params, seq!['l', 'a', 'b']) {
                                lemma_add_net_keeps(s.nets, lab, lab);
                            }
                        } else if let Some(c2) = lookup(s.components, k) {
                            if let Some(l) = lookup(c2.params, seq!['l', 'a', 'b']) {
                                assert(lookup(s.nets, l) is Some);
                                assert(lookup(s2.nets, l) is Some || !(lookup(s.nets, l) is Some));
                            }
                        }
                    }
                    assert forall|w: int|
                        0 <= w < s2.wires.len() && (#[trigger] s2.wires[w]).label.len() > 0 implies lookup(
                        s2.nets,
                        s2.wires[w].label,
                    ) is Some by {
                        assert(lookup(s.nets, s.wires[w].label) is Some);
                        assert(lookup(s2.nets, s.wires[w].label) is Some || !(lookup(s.nets, s.wires[w].label) is Some));
                    }
                    lemma_parse_from_consistent(lines, j, s2);
                },
                None => {
                    lemma_wire_line_next(t, lines, j);
                    let (wire, k) = wire_line(t, lines, j);
                    match wire {
                        Some(w) => {
                            lemma_seq_insert_sorted(s.nets, w.label, ());
                            let nets = if w.label.len() > 0 {
                                add_net(s.nets, w.label)
                            } else {
                                s.nets
                            };
                            let s2 = SchematicView { components: s.components, wires: s.wires.push(w), nets };
                            assert forall|n: Seq<char>| #[trigger] lookup(s2.nets, n) is Some || !(lookup(s.nets, n) is Some) by {
                                if w.label.len() > 0 {
                                    lemma_add_net_keeps(s.nets, n, w.label);
                                }
                            }
                            if w.label.len() > 0 {
                                lemma_add_net_keeps(s.nets, w.label, w.label);
                            }
                            assert forall|q: int|
                                0 <= q < s2.wires.len() && (#[trigger] s2.wires[q]).label.len() > 0 implies lookup(
                                s2.nets,
                                s2.wires[q].label,
                            ) is Some by {
                                if q < s.wires.len() {
                                    assert(s2.wires[q] == s.wires[q]);
                                    assert(lookup(s.nets, s.wires[q].label) is Some);
                                    assert(lookup(s2.nets, s.wires[q].label) is Some || !(lookup(s.nets, s.wires[q].label) is Some));
                                } else {
                                    assert(s2.wires[q] == w);
                                }
                            }
                            assert forall|kk: Seq<char>|
                                #![trigger lookup(s2.components, kk)]
                                lookup(s2.components, kk) matches Some(c2) ==> c2.name == kk && !has_key(
                                    c2.params,
                                    seq!['n', 'a', 'm', 'e'],
                                ) && (lookup(c2.params, seq!['l', 'a', 'b']) matches Some(l) ==> lookup(s2.nets, l) is Some) by {
                                if let Some(c2) = lookup(s.components, kk) {
                                    if let Some(l) = lookup(c2.params, seq!['l', 'a', 'b']) {
                                        assert(lookup(s2.nets, l) is Some || !(lookup(s.nets, l) is Some));
                                    }
                                }
                            }
                            lemma_parse_from_consistent(lines, k, s2);
                        },
                        None => match net_label_line(t) {
                            Some(lab) => {
                                lemma_seq_insert_sorted(s.nets, lab, ());
                                let s2 = SchematicView { components: s.components, wires: s.wires, nets: add_net(s.nets, lab) };
                                assert forall|n: Seq<char>| #[trigger] lookup(s2.nets, n) is Some || !(lookup(s.nets, n) is Some) by {
                                    lemma_add_net_keeps(s.nets, n, lab);
                                }
                                assert forall|q: int|
                                    0 <= q < s2.wires.len() && (#[trigger] s2.wires[q]).label.len() > 0 implies lookup(
                                    s2.nets,
                                    s2.wires[q].label,
                                ) is Some by {
                                    assert(lookup(s.nets, s.wires[q].label) is Some);
                                    assert(lookup(s2.nets, s.wires[q].label) is Some || !(lookup(s.nets, s.wires[q].label) is Some));
                                }
                                assert forall|kk: Seq<char>|
                                    #![trigger lookup(s2.components, kk)]
                                    lookup(s2.components, kk) matches Some(c2) ==> c2.name == kk && !has_key(
                                        c2.params,
                                        seq!['n', 'a', 'm', 'e'],
                                    ) && (lookup(c2.params, seq!['l', 'a', 'b']) matches Some(l) ==> lookup(s2.nets, l) is Some) by {
                                    if let Some(c2) = lookup(s.components, kk) {
                                        if let Some(l) = lookup(c2.params, seq!['l', 'a', 'b']) {
                                            assert(lookup(s2.nets, l) is Some || !(lookup(s.nets, l) is Some));
                                        }
                                    }
                                }
                                lemma_parse_from_consistent(lines, k, s2);
                            },
                            None => lemma_parse_from_consistent(lines, k, s),
                        },
                    }
                },
            }
        }
    }
}

/// What every file reads as: each component is filed under its own name and
/// has no `name` attribute among its parameters; the `lab` of each component
/// and the label of each labelled wire are among the nets.
pub proof fn lemma_parsed_schematic_consistent(content: Seq<u8>)
    ensures
        forall|i: int|
            0 <= i < schematic_of(content).components.len() ==> (#[trigger] schematic_of(content).components[i]).0
                == schematic_of(content).components[i].1.name && !has_key(
                schematic_of(content).components[i].1.params,
                seq!['n', 'a', 'm', 'e'],
            ),
        forall|i: int|
            0 <= i < schematic_of(content).components.len() ==> (lookup(
                (#[trigger] schematic_of(content).components[i]).1.params,
                seq!['l', 'a', 'b'],
            ) matches Some(l) ==> has_key(schematic_of(content).nets, l)),
        forall|i: int|
            0 <= i < schematic_of(content).wires.len() && (#[trigger] schematic_of(content).wires[i]).label.len()
                > 0 ==> has_key(schematic_of(content).nets, schematic_of(content).wires[i].label),
{
    let s = schematic_of(content);
    lemma_schematic_of_sorted(content);
    lemma_parse_from_consistent(lines_of(lossy_text(content)), 0, empty_schematic());
    assert forall|i: int| 0 <= i < s.components.len() implies (#[trigger] s.components[i]).0
        == s.components[i].1.name && !has_key(s.components[i].1.params, seq!['n', 'a', 'm', 'e']) && (lookup(
        s.components[i].1.params,
        seq!['l', 'a', 'b'],
    ) matches Some(l) ==> has_key(s.nets, l)) by {
        lemma_lookup_index(s.components, i);
        assert(lookup(s.components, s.components[i].0) == Some(s.components[i].1));
        if let Some(l) = lookup(s.components[i].1.params, seq!['l', 'a', 'b']) {
            lemma_lookup_some(s.nets, l);
        }
    }
    assert forall|i: int| 0 <= i < s.wires.len() && (#[trigger] s.wires[i]).label.len() > 0 implies has_key(
        s.nets,
        s.wires[i].label,
    ) by {
        lemma_lookup_some(s.nets, s.wires[i].label);
    }
}

/// The net name the element starting at line `i` gives, as the reader takes
/// it there: the `lab` of a component, the label of a labelled wire, or the
/// `lab` of a net label.
pub open spec fn element_lab(lines: Seq<Seq<char>>, i: int) -> Option<Seq<char>> {
    if i < 0 || i >= lines.len() {
        None
    } else {
        let t = ltrim(lines[i]);
        if t.len() == 0 {
            None
        } else {
            let (comp, j) = component_line(t, lines, i + 1);
            match comp {
                Some(c) => lookup(c.params, seq!['l', 'a', 'b']),
                None => {
                    let (wire, k) = wire_line(t, lines, j);
                    match wire {
                        Some(w) => if w.label.len() > 0 {
                            Some(w.label)
                        } else {
                            None
                        },
                        None => net_label_line(t),
                    }
                },
            }
        }
    }
}

/// Every net of `s` is the net name of the element at some line.
pub open spec fn nets_from_lines(lines: Seq<Seq<char>>, s: SchematicView) -> bool {
    forall|n: Seq<char>|
        #[trigger] lookup(s.nets, n) is Some ==> exists|i: int|
            0 <= i < lines.len() && #[trigger] element_lab(lines, i) == Some(n)
}

proof fn lemma_add_net_from_line(lines: Seq<Seq<char>>, s: SchematicView, i: int, lab: Seq<char>)
    requires
        keys_sorted(s.nets),
        nets_from_lines(lines, s),
        0 <= i < lines.len(),
        element_lab(lines, i) == Some(lab),
    ensures
        nets_from_lines(lines, SchematicView { nets: add_net(s.nets, lab), ..s }),
{
    assert forall|n: Seq<char>| #[trigger] lookup(add_net(s.nets, lab), n) is Some implies exists|q: int|
        0 <= q < lines.len() && #[trigger] element_lab(lines, q) == Some(n) by {
        lemma_seq_insert_lookup(s.nets, lab, (), n);
        if n == lab {
            assert(element_lab(lines, i) == Some(n));
        } else {
            assert(lookup(s.nets, n) is Some);
        }
    }
}

proof fn lemma_parse_from_nets(lines: Seq<Seq<char>>, i: int, s: SchematicView)
    requires
        keys_sorted(s.nets),
        nets_from_lines(lines, s),
    ensures
        nets_from_lines(lines, parse_from(lines, i, s)),
    decreases lines.len() - i,
{
    if 0 <= i < lines.len() {
        let t = ltrim(lines[i]);
        if t.len() == 0 {
            lemma_parse_from_nets(lines, i + 1, s);
        } else {
            lemma_component_line_next(t, lines, i + 1);
            let (comp, j) = component_line(t, lines, i + 1);
            match comp {
                Some(c) => {
                    let s1 = SchematicView { components: seq_insert(s.components, c.name, c), ..s };
                    assert(nets_from_lines(lines, s1));
                    match lookup(c.params, seq!['l', 'a', 'b']) {
                        Some(lab) => {
                            lemma_add_net_from_line(lines, s1, i, lab);
                            lemma_seq_insert_sorted(s.nets, lab, ());
                            let s2 = SchematicView { nets: add_net(s.nets, lab), ..s1 };
                            lemma_parse_from_nets(lines, j, s2);
                        },
                        None => lemma_parse_from_nets(lines, j, s1),
                    }
                },
                None => {
                    lemma_wire_line_next(t, lines, j);
                    let (wire, k) = wire_line(t, lines, j);
                    match wire {
                        Some(w) => {
                            let s1 = SchematicView { wires: s.wires.push(w), ..s };
                            assert(nets_from_lines(lines, s1));
                            if w.label.len() > 0 {
                                lemma_add_net_from_line(lines, s1, i, w.label);
                                lemma_seq_insert_sorted(s.nets, w.label, ());
                                let s2 = SchematicView { nets: add_net(s.nets, w.label), ..s1 };
                                lemma_parse_from_nets(lines, k, s2);
                            } else {
                                lemma_parse_from_nets(lines, k, s1);
                            }
                        },
                        None => match net_label_line(t) {
                            Some(lab) => {
                                lemma_add_net_from_line(lines, s, i, lab);
                                lemma_seq_insert_sorted(s.nets, lab, ());
                                let s2 = SchematicView { nets: add_net(s.nets, lab), ..s };
                                lemma_parse_from_nets(lines, k, s2);
                            },
                            None => lemma_parse_from_nets(lines, k, s),
                        },
                    }
                },
            }
        }
    }
}

/// Every net of a file comes from a label in it: each is the `lab` of a
/// component, the label of a wire, or the `lab` of a net label, as read at
/// some line of the file.
pub proof fn lemma_parsed_nets_come_from_labels(content: Seq<u8>)
    ensures
        forall|n: Seq<char>|
            #[trigger] has_key(schematic_of(content).nets, n) ==> exists|i: int|
                0 <= i < lines_of(lossy_text(content)).len() && #[trigger] element_lab(
                    lines_of(lossy_text(content)),
                    i,
                ) == Some(n),
{
    let lines = lines_of(lossy_text(content));
    lemma_schematic_of_sorted(content);
    assert(nets_from_lines(lines, empty_schematic()));
    lemma_parse_from_nets(lines, 0, empty_schematic());
    assert forall|n: Seq<char>| #[trigger] has_key(schematic_of(content).nets, n) implies exists|i: int|
        0 <= i < lines.len() && #[trigger] element_lab(lines, i) == Some(n) by {
        lemma_lookup_some(schematic_of(content).nets, n);
    }
}

/// A parsed schematic lists components and nets sorted by name, each once.
pub proof fn lemma_schematic_of_sorted(content: Seq<u8>)
    ensures
        crate::textmap::keys_sorted(schematic_of(content).components),
        crate::textmap::keys_sorted(schematic_of(content).nets),
{
    lemma_parse_from_sorted(lines_of(lossy_text(content)), 0, empty_schematic());
}

} // verus!
