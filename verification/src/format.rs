//! Text for the command line: markers, counts, the upstream relation, the
//! colours of the visual diff and the HTML page that holds it.
//!
//! Everything here computes text; printing it is the caller's business.

use vstd::prelude::*;
use crate::models::ChangeKind;
use crate::summary::labels::{label_for, label_text, is_plural};
use crate::summary::{FileSummary, FileSummaryView, SummaryCategory};
use crate::text::{concat_str, contains_seq, i64_text, int_text, nat_text, str_contains, u64_text};

verus! {

/// How `riku diff` presents its result.
#[derive(Clone, Copy, Debug, PartialEq, Eq, Structural)]
pub enum OutputFormat {
    Text,
    Json,
    Visual,
}

// ───────────────────────── markers ─────────────────────────

/// The one-letter marker of a change: `r` for a modified component whose
/// name holds ` → ` (a rename), else `+`, `-` or `~` by kind.
pub open spec fn change_marker(kind: ChangeKind, name: Seq<char>) -> Seq<char> {
    if kind == ChangeKind::Modified && contains_seq(name, " → "@) {
        "r"@
    } else {
        match kind {
            ChangeKind::Added => "+"@,
            ChangeKind::Removed => "-"@,
            ChangeKind::Modified => "~"@,
        }
    }
}

/// The one-letter marker of a change.
pub fn marker_for_change(kind: &ChangeKind, name: &str) -> (m: &'static str)
    ensures
        m@ == change_marker(*kind, name@),
{
    if *kind == ChangeKind::Modified && str_contains(name, " → ") {
        return "r";
    }
    match kind {
        ChangeKind::Added => "+",
        ChangeKind::Removed => "-",
        ChangeKind::Modified => "~",
    }
}

// ───────────────────────── counts ─────────────────────────

/// The parts joined with `sep` between each two.
pub open spec fn join(parts: Seq<Seq<char>>, sep: Seq<char>) -> Seq<char>
    decreases parts.len(),
{
    if parts.len() == 0 {
        Seq::empty()
    } else if parts.len() == 1 {
        parts[0]
    } else {
        join(parts.drop_last(), sep) + sep + parts.last()
    }
}

/// One count as shown: the number, a space, and the key's label (the key
/// itself when it has none).
pub open spec fn count_part(key: Seq<char>, count: i64) -> Seq<char> {
    int_text(count as int) + " "@ + match label_text(key, is_plural(count as int)) {
        Some(l) => l,
        None => key,
    }
}

/// The shown form of each count, in key order.
pub open spec fn count_parts(counts: Seq<(Seq<char>, i64)>) -> Seq<Seq<char>> {
    counts.map_values(|kv: (Seq<char>, i64)| count_part(kv.0, kv.1))
}

/// The short form of a summary's counts. A cosmetic file says so when
/// `allow_cosmetic_label`; a summary with no counts says it has no detail.
pub open spec fn counts_text(f: FileSummaryView, allow_cosmetic_label: bool) -> Seq<char> {
    if allow_cosmetic_label && f.category == SummaryCategory::Cosmetic {
        "(solo cambios cosméticos)"@
    } else if f.counts.len() == 0 {
        "(cambios sin detalle)"@
    } else {
        join(count_parts(f.counts), ", "@)
    }
}

/// No count is `i64::MIN`, whose magnitude does not fit in an `i64`.
pub open spec fn counts_in_range(counts: Seq<(Seq<char>, i64)>) -> bool {
    forall|i: int| 0 <= i < counts.len() ==> #[trigger] counts[i].1 != i64::MIN
}

/// The short form of a summary's counts.
pub fn format_counts(f: &FileSummary, allow_cosmetic_label: bool) -> (s: String)
    requires
        counts_in_range(f@.counts),
    ensures
        s@ == counts_text(f@, allow_cosmetic_label),
{
    if allow_cosmetic_label && f.category == SummaryCategory::Cosmetic {
        return "(solo cambios cosméticos)".to_string();
    }
    if f.counts.is_empty() {
        return "(cambios sin detalle)".to_string();
    }
    let ghost parts = count_parts(f@.counts);
    let mut out = String::new();
    let mut i: usize = 0;
    proof {
        reveal_strlit(", ");
        reveal_strlit(" ");
    }
    assert(out@ =~= join(parts.take(0), ", "@));
    while i < f.counts.len()
        invariant
            i <= f@.counts.len(),
            parts == count_parts(f@.counts),
            counts_in_range(f@.counts),
            out@ == join(parts.take(i as int), ", "@),
        decreases f@.counts.len() - i,
    {
        let key = f.counts.key_at(i);
        let count = *f.counts.value_at(i);
        assert(f@.counts[i as int].1 != i64::MIN);
        let label = match label_for(key.as_str(), count) {
            Some(l) => l,
            None => key.clone(),
        };
        let num = i64_text(count);
        let a = concat_str(num.as_str(), " ");
        let part = concat_str(a.as_str(), label.as_str());
        assert(part@ == parts[i as int]);
        let ghost prev = out@;
        if i > 0 {
            let with_sep = concat_str(out.as_str(), ", ");
            out = concat_str(with_sep.as_str(), part.as_str());
        } else {
            out = part;
        }
        assert(parts.take(i + 1).drop_last() =~= parts.take(i as int));
        i = i + 1;
    }
    assert(parts.take(parts.len() as int) =~= parts);
    out
}

// ───────────────────────── upstream ─────────────────────────

/// How a branch stands against its upstream: `N adelante`, `N atrás`, both
/// joined by `, `, or `al día`.
pub open spec fn upstream_text(ahead: nat, behind: nat) -> Seq<char> {
    if ahead > 0 && behind > 0 {
        nat_text(ahead) + " adelante"@ + ", "@ + nat_text(behind) + " atrás"@
    } else if ahead > 0 {
        nat_text(ahead) + " adelante"@
    } else if behind > 0 {
        nat_text(behind) + " atrás"@
    } else {
        "al día"@
    }
}

/// How a branch stands against its upstream.
pub fn describe_upstream(ahead: usize, behind: usize) -> (s: String)
    ensures
        s@ == upstream_text(ahead as nat, behind as nat),
{
    let a = concat_str(u64_text(ahead as u64).as_str(), " adelante");
    let b = concat_str(u64_text(behind as u64).as_str(), " atrás");
    if ahead > 0 && behind > 0 {
        let with_sep = concat_str(a.as_str(), ", ");
        concat_str(with_sep.as_str(), b.as_str())
    } else if ahead > 0 {
        a
    } else if behind > 0 {
        b
    } else {
        "al día".to_string()
    }
}

// ───────────────────────── colours ─────────────────────────

/// Fill and stroke colours of a change in the visual diff: green added, red
/// removed, grey a cosmetic modification, amber any other.
pub open spec fn style_of(kind: ChangeKind, cosmetic: bool) -> (Seq<char>, Seq<char>) {
    match kind {
        ChangeKind::Added => ("rgba(0,200,0,0.25)"@, "rgba(0,200,0,0.8)"@),
        ChangeKind::Removed => ("rgba(200,0,0,0.25)"@, "rgba(200,0,0,0.8)"@),
        ChangeKind::Modified => if cosmetic {
            ("rgba(120,120,120,0.20)"@, "rgba(120,120,120,0.85)"@)
        } else {
            ("rgba(255,180,0,0.25)"@, "rgba(255,180,0,0.8)"@)
        },
    }
}

/// Fill and stroke colours of a change in the visual diff.
pub fn change_style(kind: &ChangeKind, cosmetic: bool) -> (r: (&'static str, &'static str))
    ensures
        (r.0@, r.1@) == style_of(*kind, cosmetic),
{
    match kind {
        ChangeKind::Added => ("rgba(0,200,0,0.25)", "rgba(0,200,0,0.8)"),
        ChangeKind::Removed => ("rgba(200,0,0,0.25)", "rgba(200,0,0,0.8)"),
        ChangeKind::Modified => if cosmetic {
            ("rgba(120,120,120,0.20)", "rgba(120,120,120,0.85)")
        } else {
            ("rgba(255,180,0,0.25)", "rgba(255,180,0,0.8)")
        },
    }
}

// ───────────────────────── the visual diff page ─────────────────────────
pub const DIFF_HTML_0: &'static str = "<!DOCTYPE html>\n<html lang=\"es\">\n<head>\n<meta charset=\"utf-8\">\n<title>riku diff — ";
pub const DIFF_HTML_1: &'static str = "</title>\n<style>\n  * { box-sizing: border-box; margin: 0; padding: 0; }\n  body { background: #1a1a1a; color: #ccc; font-family: monospace; display: flex; flex-direction: column; height: 100vh; }\n  header { padding: 8px 16px; background: #111; border-bottom: 1px solid #333; font-size: 13px; }\n  header span { color: #888; }\n  .panels { display: flex; flex: 1; overflow: hidden; gap: 2px; padding: 2px; }\n  .panel { flex: 1; display: flex; flex-direction: column; background: #111; border: 1px solid #333; overflow: hidden; }\n  .panel-label { padding: 4px 10px; font-size: 11px; color: #888; background: #0d0d0d; border-bottom: 1px solid #222; }\n  .panel-label b { color: #ccc; }\n  .panel-body { flex: 1; overflow: auto; display: flex; align-items: center; justify-content: center; padding: 8px; }\n  .panel-body svg { max-width: 100%; max-height: 100%; }\n  .legend { padding: 6px 16px; background: #111; border-top: 1px solid #333; font-size: 11px; display: flex; gap: 16px; }\n  .dot { display: inline-block; width: 10px; height: 10px; border-radius: 2px; margin-right: 4px; }\n</style>\n</head>\n<body>\n<header><span>riku diff</span> &nbsp;·&nbsp; ";
pub const DIFF_HTML_2: &'static str = " &nbsp;·&nbsp; <span>";
pub const DIFF_HTML_3: &'static str = "</span> → <span>";
pub const DIFF_HTML_4: &'static str = "</span></header>\n<div class=\"panels\">\n  <div class=\"panel\">\n    <div class=\"panel-label\">ANTES &nbsp;<b>";
pub const DIFF_HTML_5: &'static str = "</b></div>\n    <div class=\"panel-body\">";
pub const DIFF_HTML_6: &'static str = "</div>\n  </div>\n  <div class=\"panel\">\n    <div class=\"panel-label\">DESPUÉS &nbsp;<b>";
pub const DIFF_HTML_7: &'static str = "</b></div>\n    <div class=\"panel-body\">";
pub const DIFF_HTML_8: &'static str = "</div>\n  </div>\n</div>\n<div class=\"legend\">\n  <span><span class=\"dot\" style=\"background:rgba(0,200,0,0.7)\"></span>Añadido</span>\n  <span><span class=\"dot\" style=\"background:rgba(200,0,0,0.7)\"></span>Removido</span>\n  <span><span class=\"dot\" style=\"background:rgba(255,180,0,0.7)\"></span>Modificado</span>\n  <span><span class=\"dot\" style=\"background:rgba(120,120,120,0.7)\"></span>Cosmético</span>\n</div>\n</body>\n</html>";

/// The HTML page of a visual diff: a header naming the file and the two
/// commits, the two panels side by side, and a colour legend.
pub open spec fn diff_html(
    commit_a: Seq<char>,
    commit_b: Seq<char>,
    file_path: Seq<char>,
    panel_a: Seq<char>,
    panel_b: Seq<char>,
) -> Seq<char> {
    DIFF_HTML_0@ + file_path + DIFF_HTML_1@ + file_path + DIFF_HTML_2@ + commit_a + DIFF_HTML_3@ + commit_b + DIFF_HTML_4@ + commit_a + DIFF_HTML_5@ + panel_a + DIFF_HTML_6@ + commit_b + DIFF_HTML_7@ + panel_b + DIFF_HTML_8@
}

/// The HTML page of a visual diff.
pub fn build_diff_html(
    commit_a: &str,
    commit_b: &str,
    file_path: &str,
    panel_a: &str,
    panel_b: &str,
) -> (html: String)
    ensures
        html@ == diff_html(commit_a@, commit_b@, file_path@, panel_a@, panel_b@),
{
    let mut s = DIFF_HTML_0.to_string();
    s = concat_str(s.as_str(), file_path);
    s = concat_str(s.as_str(), DIFF_HTML_1);
    s = concat_str(s.as_str(), file_path);
    s = concat_str(s.as_str(), DIFF_HTML_2);
    s = concat_str(s.as_str(), commit_a);
    s = concat_str(s.as_str(), DIFF_HTML_3);
    s = concat_str(s.as_str(), commit_b);
    s = concat_str(s.as_str(), DIFF_HTML_4);
    s = concat_str(s.as_str(), commit_a);
    s = concat_str(s.as_str(), DIFF_HTML_5);
    s = concat_str(s.as_str(), panel_a);
    s = concat_str(s.as_str(), DIFF_HTML_6);
    s = concat_str(s.as_str(), commit_b);
    s = concat_str(s.as_str(), DIFF_HTML_7);
    s = concat_str(s.as_str(), panel_b);
    s = concat_str(s.as_str(), DIFF_HTML_8);
    s
}


// ───────────────────────── log lines ─────────────────────────

/// `s` padded with spaces on the right to `width` characters, as `{:<width}`
/// formats it (a longer `s` is kept whole).
pub open spec fn pad_right(s: Seq<char>, width: nat) -> Seq<char> {
    if s.len() >= width {
        s
    } else {
        s + Seq::new((width - s.len()) as nat, |i: int| ' ')
    }
}

/// `s` padded on the right with spaces to `width` characters.
pub fn pad_right_text(s: &str, width: usize) -> (r: String)
    ensures
        r@ == pad_right(s@, width as nat),
{
    let mut v = crate::text::chars_of(s);
    let ghost start = v@;
    if v.len() >= width {
        return crate::text::string_from_chars(v.as_slice());
    }
    while v.len() < width
        invariant
            start == s@,
            start.len() <= v@.len() <= width,
            v@ == start + Seq::new((v@.len() - start.len()) as nat, |i: int| ' '),
        decreases width - v@.len(),
    {
        let ghost before = v@;
        v.push(' ');
        assert(v@ =~= start + Seq::new((v@.len() - start.len()) as nat, |i: int| ' '));
    }
    crate::text::string_from_chars(v.as_slice())
}

/// One commit of `riku log`: short id, author padded to 20 characters, and
/// the first 60 characters of the message.
pub open spec fn log_line(short_id: Seq<char>, author: Seq<char>, message: Seq<char>) -> Seq<char> {
    short_id + "  "@ + pad_right(author, 20) + "  "@ + message.take(
        if message.len() < 60 {
            message.len() as int
        } else {
            60
        },
    )
}

/// One commit of `riku log`.
pub fn format_log_line(short_id: &str, author: &str, message: &str) -> (r: String)
    ensures
        r@ == log_line(short_id@, author@, message@),
{
    let a = concat_str(short_id, "  ");
    let b = concat_str(a.as_str(), pad_right_text(author, 20).as_str());
    let c = concat_str(b.as_str(), "  ");
    let m = crate::text::chars_of(message);
    let n: usize = if m.len() < 60 {
        m.len()
    } else {
        60
    };
    let head = crate::text::slice_to_vec(m.as_slice(), 0, n);
    assert(m@.subrange(0, n as int) =~= message@.take(n as int));
    concat_str(c.as_str(), crate::text::string_from_chars(head.as_slice()).as_str())
}

/// How many driver entries are additions, removals and modifications.
pub open spec fn kind_counts(changes: Seq<crate::driver::DiffEntryView>) -> (nat, nat, nat)
    decreases changes.len(),
{
    if changes.len() == 0 {
        (0, 0, 0)
    } else {
        let r = kind_counts(changes.drop_last());
        match changes.last().kind {
            ChangeKind::Added => ((r.0 + 1) as nat, r.1, r.2),
            ChangeKind::Removed => (r.0, (r.1 + 1) as nat, r.2),
            ChangeKind::Modified => (r.0, r.1, (r.2 + 1) as nat),
        }
    }
}

/// Counts the entries of a driver report by kind: added, removed, modified.
pub fn summarize_changes(changes: &[crate::driver::DiffEntry]) -> (r: (usize, usize, usize))
    ensures
        (r.0 as nat, r.1 as nat, r.2 as nat) == kind_counts(changes@.map_values(
            |e: crate::driver::DiffEntry| e@,
        )),
{
    let ghost cv = changes@.map_values(|e: crate::driver::DiffEntry| e@);
    let mut a: usize = 0;
    let mut r: usize = 0;
    let mut m: usize = 0;
    let mut i: usize = 0;
    while i < changes.len()
        invariant
            i <= changes@.len(),
            cv == changes@.map_values(|e: crate::driver::DiffEntry| e@),
            a + r + m == i,
            (a as nat, r as nat, m as nat) == kind_counts(cv.take(i as int)),
        decreases changes@.len() - i,
    {
        assert(cv.take(i + 1).drop_last() =~= cv.take(i as int));
        assert(cv.take(i + 1).last() == changes@[i as int]@);
        match changes[i].kind {
            ChangeKind::Added => a = a + 1,
            ChangeKind::Removed => r = r + 1,
            ChangeKind::Modified => m = m + 1,
        }
        i = i + 1;
    }
    assert(cv.take(cv.len() as int) =~= cv);
    (a, r, m)
}

/// The semantic note under a commit of `riku log`: `+N`, `-N` and `~N` for
/// the non-zero counts, two spaces apart, indented; nothing when all are zero.
pub open spec fn log_note(added: nat, removed: nat, modified: nat) -> Option<Seq<char>> {
    let parts = (if added > 0 { seq!["+"@ + nat_text(added)] } else { Seq::empty() }) + (if removed > 0 {
        seq!["-"@ + nat_text(removed)]
    } else {
        Seq::empty()
    }) + (if modified > 0 { seq!["~"@ + nat_text(modified)] } else { Seq::empty() });
    if parts.len() == 0 {
        None
    } else {
        Some("           "@ + join(parts, "  "@))
    }
}

/// The semantic note under a commit of `riku log`.
pub fn format_log_note(added: usize, removed: usize, modified: usize) -> (r: Option<String>)
    ensures
        match r {
            Some(s) => log_note(added as nat, removed as nat, modified as nat) == Some(s@),
            None => log_note(added as nat, removed as nat, modified as nat) is None,
        },
{
    let ghost pa: Seq<Seq<char>> = if added > 0 { seq!["+"@ + nat_text(added as nat)] } else { Seq::empty() };
    let ghost pr: Seq<Seq<char>> = if removed > 0 { seq!["-"@ + nat_text(removed as nat)] } else { Seq::empty() };
    let ghost pm: Seq<Seq<char>> = if modified > 0 { seq!["~"@ + nat_text(modified as nat)] } else { Seq::empty() };
    let mut parts: Vec<String> = Vec::new();
    if added > 0 {
        parts.push(concat_str("+", u64_text(added as u64).as_str()));
    }
    if removed > 0 {
        parts.push(concat_str("-", u64_text(removed as u64).as_str()));
    }
    if modified > 0 {
        parts.push(concat_str("~", u64_text(modified as u64).as_str()));
    }
    assert(crate::text::texts(parts@) =~= pa + pr + pm);
    if parts.len() == 0 {
        return None;
    }
    let ghost ps = crate::text::texts(parts@);
    let mut out = String::new();
    let mut i: usize = 0;
    while i < parts.len()
        invariant
            i <= parts@.len(),
            ps == crate::text::texts(parts@),
            out@ == join(ps.take(i as int), "  "@),
        decreases parts@.len() - i,
    {
        assert(ps.take(i + 1).drop_last() =~= ps.take(i as int));
        if i > 0 {
            let with_sep = concat_str(out.as_str(), "  ");
            out = concat_str(with_sep.as_str(), parts[i].as_str());
        } else {
            out = parts[i].clone();
            assert(ps.take(1) =~= seq![ps[0]]);
        }
        i = i + 1;
    }
    assert(ps.take(ps.len() as int) =~= ps);
    Some(concat_str("           ", out.as_str()))
}

} // verus!
