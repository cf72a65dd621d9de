//! The text of `riku status`: a header naming the branch, then the changed
//! files grouped by category, at one of three detail levels.
//!
//! These functions build the lines; printing them is the caller's business.

use vstd::prelude::*;
use crate::driver::{DiffEntryView, DriverDiffReport, DriverDiffReportView};
use crate::format::{counts_in_range, counts_text, describe_upstream, format_counts, upstream_text};
use crate::git_types::BranchInfo;
use crate::models::ChangeKind;
use crate::status::{category_count, StatusReport};
use crate::summary::{DetailEntry, DetailEntryView, DetailLevel, FileSummary, FileSummaryView, SummaryCategory};
use crate::text::{append_lines, concat_str, nat_text, texts, u64_text};

verus! {

broadcast use crate::text::lemma_texts_push;

// ───────────────────────── specification ─────────────────────────

/// The first line: the branch, its `HEAD` and, with an upstream, how the
/// branch stands against it.
pub open spec fn header_line(branch: Option<BranchInfo>) -> Seq<char> {
    match branch {
        Some(b) => "En rama "@ + b.name@ + " (HEAD "@ + b.head_short@ + ")"@ + match b.upstream {
            Some(up) => " — vs "@ + up@ + ": "@ + upstream_text(b.ahead as nat, b.behind as nat),
            None => Seq::empty(),
        },
        None => "Repositorio sin HEAD (commit inicial pendiente)."@,
    }
}

/// One line per changed parameter, under a detail entry.
pub open spec fn param_lines(ps: Seq<(Seq<char>, Seq<char>)>, indent: Seq<char>) -> Seq<Seq<char>>
    decreases ps.len(),
{
    if ps.len() == 0 {
        Seq::empty()
    } else {
        param_lines(ps.drop_last(), indent).push(
            indent + "    "@ + ps.last().0 + ": "@ + ps.last().1,
        )
    }
}

/// A detail entry: its marker and element, then its parameters.
pub open spec fn detail_lines(d: DetailEntryView, indent: Seq<char>) -> Seq<Seq<char>> {
    seq![indent + d.kind.marker_text() + " "@ + d.element] + param_lines(d.params, indent)
}

/// The lines of each detail entry, in order.
pub open spec fn details_lines(ds: Seq<DetailEntryView>, indent: Seq<char>) -> Seq<Seq<char>>
    decreases ds.len(),
{
    if ds.len() == 0 {
        Seq::empty()
    } else {
        details_lines(ds.drop_last(), indent) + detail_lines(ds.last(), indent)
    }
}

/// The marker of a change kind.
pub open spec fn kind_marker(kind: ChangeKind) -> Seq<char> {
    match kind {
        ChangeKind::Added => "+"@,
        ChangeKind::Removed => "-"@,
        ChangeKind::Modified => "~"@,
    }
}

/// One line of the full report per driver entry.
pub open spec fn change_lines(cs: Seq<DiffEntryView>) -> Seq<Seq<char>>
    decreases cs.len(),
{
    if cs.len() == 0 {
        Seq::empty()
    } else {
        change_lines(cs.drop_last()).push(
            "      "@ + kind_marker(cs.last().kind) + " "@ + cs.last().element + if cs.last().cosmetic {
                " [cosmetic]"@
            } else {
                Seq::empty()
            },
        )
    }
}

/// One line per driver warning.
pub open spec fn warning_lines(ws: Seq<Seq<char>>) -> Seq<Seq<char>>
    decreases ws.len(),
{
    if ws.len() == 0 {
        Seq::empty()
    } else {
        warning_lines(ws.drop_last()).push("        - "@ + ws.last())
    }
}

/// The whole driver report: its entries, then its warnings.
pub open spec fn full_report_lines(rep: DriverDiffReportView) -> Seq<Seq<char>> {
    seq!["      ── reporte completo ──"@] + if rep.changes.len() == 0 {
        seq!["      (sin entradas)"@]
    } else {
        change_lines(rep.changes) + if rep.warnings.len() > 0 {
            seq!["      avisos del driver:"@] + warning_lines(rep.warnings)
        } else {
            Seq::empty()
        }
    }
}

/// A file with semantic changes: its counts, then its details (levels
/// `Detalle` and `Completo`), then its full report (level `Completo`).
pub open spec fn file_entry_lines(f: FileSummaryView, level: DetailLevel) -> Seq<Seq<char>> {
    seq!["  "@ + f.path + "    "@ + counts_text(f, false)] + (if level != DetailLevel::Resumen {
        details_lines(f.details, "      "@)
    } else {
        Seq::empty()
    }) + (if level == DetailLevel::Completo && f.full_report is Some {
        full_report_lines(f.full_report.unwrap())
    } else {
        Seq::empty()
    })
}

/// A file's lines in the section of its category.
pub open spec fn entry_lines(f: FileSummaryView, level: DetailLevel) -> Seq<Seq<char>> {
    match f.category {
        SummaryCategory::Semantic => file_entry_lines(f, level),
        SummaryCategory::Cosmetic => seq!["  "@ + f.path + "    (solo cambios cosméticos)"@],
        SummaryCategory::Error => seq![
            "  "@ + f.path + "    "@ + if f.errors.len() > 0 {
                f.errors[0]
            } else {
                "(sin detalle)"@
            },
        ],
        _ => seq!["  "@ + f.path],
    }
}

/// The lines of the files of one category, in list order.
pub open spec fn section_body(files: Seq<FileSummary>, cat: SummaryCategory, level: DetailLevel) -> Seq<Seq<char>>
    decreases files.len(),
{
    if files.len() == 0 {
        Seq::empty()
    } else {
        section_body(files.drop_last(), cat, level) + if files.last().category == cat {
            entry_lines(files.last()@, level)
        } else {
            Seq::empty()
        }
    }
}

/// A section: a blank line, its title, its files; nothing without files.
pub open spec fn section(files: Seq<FileSummary>, cat: SummaryCategory, level: DetailLevel, title: Seq<char>) -> Seq<Seq<char>> {
    if category_count(files, cat) > 0 {
        seq![Seq::empty(), title] + section_body(files, cat, level)
    } else {
        Seq::empty()
    }
}

/// The sections of the files a driver handled: semantic, cosmetic,
/// unchanged, errors.
pub open spec fn known_sections(files: Seq<FileSummary>, level: DetailLevel) -> Seq<Seq<char>> {
    section(files, SummaryCategory::Semantic, level, "Modificados con cambios semánticos:"@)
        + section(files, SummaryCategory::Cosmetic, level, "Modificados sin cambios semánticos:"@)
        + section(
        files,
        SummaryCategory::Unchanged,
        level,
        "Modificados sin diferencias detectadas por driver:"@,
    ) + section(files, SummaryCategory::Error, level, "Errores al analizar:"@)
}

/// The files no driver handles: listed, or only counted.
pub open spec fn unknown_section(files: Seq<FileSummary>, level: DetailLevel, include_unknown: bool) -> Seq<Seq<char>> {
    if category_count(files, SummaryCategory::Unknown) == 0 {
        Seq::empty()
    } else if include_unknown {
        section(files, SummaryCategory::Unknown, level, "No reconocidos por Riku:"@)
    } else {
        seq![
            Seq::empty(),
            "No reconocidos por Riku ("@ + nat_text(category_count(files, SummaryCategory::Unknown))
                + "): use --include-unknown para listarlos."@,
        ]
    }
}

/// The files by category: semantic, cosmetic, unchanged, errors, and the
/// files no driver handles (listed, or only counted).
pub open spec fn categorized_lines(files: Seq<FileSummary>, level: DetailLevel, include_unknown: bool) -> Seq<Seq<char>> {
    if files.len() == 0 {
        seq![Seq::empty(), "Sin cambios."@]
    } else {
        known_sections(files, level) + unknown_section(files, level, include_unknown)
    }
}

/// The whole text of `riku status` (the warnings go elsewhere).
pub open spec fn status_lines(report: StatusReport, level: DetailLevel, include_unknown: bool) -> Seq<Seq<char>> {
    seq![header_line(report.branch)] + categorized_lines(report.files@, level, include_unknown)
}

/// No file's counts hold `i64::MIN`.
pub open spec fn files_in_range(files: Seq<FileSummary>) -> bool {
    forall|i: int| 0 <= i < files.len() ==> counts_in_range(#[trigger] files[i]@.counts)
}

// ───────────────────────── building ─────────────────────────

/// The header line of `riku status`.
pub fn status_header(branch: &Option<BranchInfo>) -> (s: String)
    ensures
        s@ == header_line(*branch),
{
    match branch {
        Some(b) => {
            let a = concat_str("En rama ", b.name.as_str());
            let c = concat_str(a.as_str(), " (HEAD ");
            let d = concat_str(c.as_str(), b.head_short.as_str());
            let e = concat_str(d.as_str(), ")");
            match &b.upstream {
                Some(up) => {
                    let rel = describe_upstream(b.ahead, b.behind);
                    let f = concat_str(e.as_str(), " — vs ");
                    let g = concat_str(f.as_str(), up.as_str());
                    let h = concat_str(g.as_str(), ": ");
                    concat_str(h.as_str(), rel.as_str())
                },
                None => {
                    assert(e@ =~= e@ + Seq::<char>::empty());
                    e
                },
            }
        },
        None => "Repositorio sin HEAD (commit inicial pendiente).".to_string(),
    }
}

/// The lines of one detail entry at an indentation.
pub fn detail_text(d: &DetailEntry, indent: &str) -> (r: Vec<String>)
    ensures
        texts(r@) == detail_lines(d@, indent@),
{
    let mut lines: Vec<String> = Vec::new();
    let a = concat_str(indent, d.kind.marker());
    let b = concat_str(a.as_str(), " ");
    lines.push(concat_str(b.as_str(), d.element.as_str()));
    let param_indent = concat_str(indent, "    ");
    let ghost head = texts(lines@);
    let mut i: usize = 0;
    while i < d.params.len()
        invariant
            i <= d@.params.len(),
            param_indent@ == indent@ + "    "@,
            texts(lines@) == head + param_lines(d@.params.take(i as int), indent@),
        decreases d@.params.len() - i,
    {
        let k = d.params.key_at(i);
        let v = d.params.value_at(i);
        let x = concat_str(param_indent.as_str(), k.as_str());
        let y = concat_str(x.as_str(), ": ");
        let line = concat_str(y.as_str(), v.as_str());
        let ghost ps = d@.params.take(i + 1);
        assert(ps.drop_last() =~= d@.params.take(i as int));
        lines.push(line);
        assert(texts(lines@) =~= head + param_lines(ps, indent@));
        i = i + 1;
    }
    assert(d@.params.take(d@.params.len() as int) =~= d@.params);
    lines
}

fn full_report_text(rep: &DriverDiffReport) -> (r: Vec<String>)
    ensures
        texts(r@) == full_report_lines(rep@),
{
    let mut lines: Vec<String> = Vec::new();
    lines.push("      ── reporte completo ──".to_string());
    if rep.changes.len() == 0 {
        lines.push("      (sin entradas)".to_string());
        assert(texts(lines@) =~= full_report_lines(rep@));
        return lines;
    }
    let ghost head = texts(lines@);
    let ghost cs = rep@.changes;
    let mut i: usize = 0;
    while i < rep.changes.len()
        invariant
            i <= cs.len(),
            cs == rep@.changes,
            texts(lines@) == head + change_lines(cs.take(i as int)),
        decreases cs.len() - i,
    {
        let c = &rep.changes[i];
        let marker = match c.kind {
            ChangeKind::Added => "+",
            ChangeKind::Removed => "-",
            ChangeKind::Modified => "~",
        };
        let a = concat_str("      ", marker);
        let b = concat_str(a.as_str(), " ");
        let e = concat_str(b.as_str(), c.element.as_str());
        let line = if c.cosmetic {
            concat_str(e.as_str(), " [cosmetic]")
        } else {
            assert(e@ =~= e@ + Seq::<char>::empty());
            e
        };
        assert(cs.take(i + 1).drop_last() =~= cs.take(i as int));
        assert(cs.take(i + 1).last() == c@);
        lines.push(line);
        assert(texts(lines@) =~= head + change_lines(cs.take(i + 1)));
        i = i + 1;
    }
    assert(cs.take(cs.len() as int) =~= cs);
    let ghost mid = texts(lines@);
    if rep.warnings.len() > 0 {
        lines.push("      avisos del driver:".to_string());
        let ghost head2 = texts(lines@);
        let ghost ws = rep@.warnings;
        let mut j: usize = 0;
        while j < rep.warnings.len()
            invariant
                j <= ws.len(),
                ws == rep@.warnings,
                texts(lines@) == head2 + warning_lines(ws.take(j as int)),
            decreases ws.len() - j,
        {
            let line = concat_str("        - ", rep.warnings[j].as_str());
            assert(ws.take(j + 1).drop_last() =~= ws.take(j as int));
            lines.push(line);
            assert(texts(lines@) =~= head2 + warning_lines(ws.take(j + 1)));
            j = j + 1;
        }
        assert(ws.take(ws.len() as int) =~= ws);
    } else {
        assert(texts(lines@) =~= mid + Seq::<Seq<char>>::empty());
    }
    assert(texts(lines@) =~= full_report_lines(rep@));
    lines
}

/// The lines of a file with semantic changes at a detail level.
pub fn file_entry_text(f: &FileSummary, level: DetailLevel) -> (r: Vec<String>)
    requires
        counts_in_range(f@.counts),
    ensures
        texts(r@) == file_entry_lines(f@, level),
{
    let mut lines: Vec<String> = Vec::new();
    let a = concat_str("  ", f.path.as_str());
    let b = concat_str(a.as_str(), "    ");
    lines.push(concat_str(b.as_str(), format_counts(f, false).as_str()));
    let ghost first = texts(lines@);
    let ghost ds = f@.details;
    match level {
        DetailLevel::Resumen => {
            assert(texts(lines@) =~= first + Seq::<Seq<char>>::empty());
        },
        _ => {
            let mut i: usize = 0;
            while i < f.details.len()
                invariant
                    i <= ds.len(),
                    ds == f@.details,
                    ds.len() == f.details@.len(),
                    forall|j: int| 0 <= j < ds.len() ==> #[trigger] ds[j] == f.details@[j]@,
                    texts(lines@) == first + details_lines(ds.take(i as int), "      "@),
                decreases ds.len() - i,
            {
                let more = detail_text(&f.details[i], "      ");
                assert(ds.take(i + 1).drop_last() =~= ds.take(i as int));
                assert(ds.take(i + 1).last() == f.details@[i as int]@);
                append_lines(&mut lines, more);
                assert(texts(lines@) =~= first + details_lines(ds.take(i + 1), "      "@));
                i = i + 1;
            }
            assert(ds.take(ds.len() as int) =~= ds);
        },
    }
    let ghost second = texts(lines@);
    match (level, &f.full_report) {
        (DetailLevel::Completo, Some(rep)) => {
            let more = full_report_text(rep);
            append_lines(&mut lines, more);
        },
        _ => {
            assert(texts(lines@) =~= second + Seq::<Seq<char>>::empty());
        },
    }
    lines
}

/// A file's lines in the section of its category.
fn entry_text(f: &FileSummary, level: DetailLevel) -> (r: Vec<String>)
    requires
        counts_in_range(f@.counts),
    ensures
        texts(r@) == entry_lines(f@, level),
{
    let mut lines: Vec<String> = Vec::new();
    match f.category {
        SummaryCategory::Semantic => {
            return file_entry_text(f, level);
        },
        SummaryCategory::Cosmetic => {
            let a = concat_str("  ", f.path.as_str());
            lines.push(concat_str(a.as_str(), "    (solo cambios cosméticos)"));
        },
        SummaryCategory::Error => {
            let a = concat_str("  ", f.path.as_str());
            let b = concat_str(a.as_str(), "    ");
            let msg: &str = if f.errors.len() > 0 {
                f.errors[0].as_str()
            } else {
                "(sin detalle)"
            };
            lines.push(concat_str(b.as_str(), msg));
        },
        _ => {
            lines.push(concat_str("  ", f.path.as_str()));
        },
    }
    assert(texts(lines@) =~= entry_lines(f@, level));
    lines
}

fn push_section_body(lines: &mut Vec<String>, files: &Vec<FileSummary>, cat: SummaryCategory, level: DetailLevel)
    requires
        files_in_range(files@),
    ensures
        texts(final(lines)@) == texts(old(lines)@) + section_body(files@, cat, level),
{
    let ghost start = texts(lines@);
    let mut i: usize = 0;
    assert(texts(lines@) =~= start + section_body(files@.take(0), cat, level));
    while i < files.len()
        invariant
            i <= files@.len(),
            files_in_range(files@),
            texts(lines@) == start + section_body(files@.take(i as int), cat, level),
        decreases files@.len() - i,
    {
        let ghost before = texts(lines@);
        assert(files@.take(i + 1).drop_last() =~= files@.take(i as int));
        assert(files@.take(i + 1).last() == files@[i as int]);
        if files[i].category == cat {
            assert(counts_in_range(files@[i as int]@.counts));
            let more = entry_text(&files[i], level);
            append_lines(lines, more);
        } else {
            assert(texts(lines@) =~= before + Seq::<Seq<char>>::empty());
        }
        assert(texts(lines@) =~= start + section_body(files@.take(i + 1), cat, level));
        i = i + 1;
    }
    assert(files@.take(files@.len() as int) =~= files@);
}

fn push_section(
    lines: &mut Vec<String>,
    report: &StatusReport,
    cat: SummaryCategory,
    level: DetailLevel,
    title: &str,
)
    requires
        files_in_range(report.files@),
    ensures
        texts(final(lines)@) == texts(old(lines)@) + section(report.files@, cat, level, title@),
{
    let ghost start = texts(lines@);
    if report.count_by_category(cat) > 0 {
        lines.push(String::new());
        lines.push(title.to_string());
        assert(texts(lines@) =~= start + seq![Seq::<char>::empty(), title@]);
        push_section_body(lines, &report.files, cat, level);
        assert(texts(lines@) =~= start + section(report.files@, cat, level, title@));
    } else {
        assert(texts(lines@) =~= start + Seq::<Seq<char>>::empty());
    }
}

fn known_text(report: &StatusReport, level: DetailLevel) -> (r: Vec<String>)
    requires
        files_in_range(report.files@),
    ensures
        texts(r@) == known_sections(report.files@, level),
{
    let ghost f = report.files@;
    let mut lines: Vec<String> = Vec::new();
    push_section(&mut lines, report, SummaryCategory::Semantic, level, "Modificados con cambios semánticos:");
    let ghost s1 = texts(lines@);
    assert(s1 =~= section(f, SummaryCategory::Semantic, level, "Modificados con cambios semánticos:"@));
    push_section(&mut lines, report, SummaryCategory::Cosmetic, level, "Modificados sin cambios semánticos:");
    let ghost s2 = texts(lines@);
    push_section(
        &mut lines,
        report,
        SummaryCategory::Unchanged,
        level,
        "Modificados sin diferencias detectadas por driver:",
    );
    let ghost s3 = texts(lines@);
    push_section(&mut lines, report, SummaryCategory::Error, level, "Errores al analizar:");
    assert(texts(lines@) =~= known_sections(f, level));
    lines
}

fn unknown_text(report: &StatusReport, level: DetailLevel, include_unknown: bool) -> (r: Vec<String>)
    requires
        files_in_range(report.files@),
    ensures
        texts(r@) == unknown_section(report.files@, level, include_unknown),
{
    let mut lines: Vec<String> = Vec::new();
    let unknown = report.count_by_category(SummaryCategory::Unknown);
    if unknown == 0 {
        assert(texts(lines@) =~= Seq::<Seq<char>>::empty());
    } else if include_unknown {
        push_section(&mut lines, report, SummaryCategory::Unknown, level, "No reconocidos por Riku:");
        assert(texts(lines@) =~= unknown_section(report.files@, level, include_unknown));
    } else {
        lines.push(String::new());
        let a = concat_str("No reconocidos por Riku (", u64_text(unknown as u64).as_str());
        lines.push(concat_str(a.as_str(), "): use --include-unknown para listarlos."));
        assert(texts(lines@) =~= unknown_section(report.files@, level, include_unknown));
    }
    lines
}

/// The whole text of `riku status`, one string per line; the warnings are
/// not in it.
pub fn status_text(report: &StatusReport, level: DetailLevel, include_unknown: bool) -> (r: Vec<String>)
    requires
        files_in_range(report.files@),
    ensures
        texts(r@) == status_lines(*report, level, include_unknown),
{
    let mut lines: Vec<String> = Vec::new();
    lines.push(status_header(&report.branch));
    if report.files.len() == 0 {
        lines.push(String::new());
        lines.push("Sin cambios.".to_string());
        assert(texts(lines@) =~= status_lines(*report, level, include_unknown));
        return lines;
    }
    let ghost head = texts(lines@);
    append_lines(&mut lines, known_text(report, level));
    append_lines(&mut lines, unknown_text(report, level, include_unknown));
    assert(texts(lines@) =~= head + (known_sections(report.files@, level) + unknown_section(
        report.files@,
        level,
        include_unknown,
    )));
    lines
}

} // verus!
